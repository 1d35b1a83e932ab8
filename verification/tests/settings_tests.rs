use barustenberg::bn254_scalar_multiplication::{is_point_at_infinity, G1Projective};
use barustenberg::errors::{Error, RejectReason, Verdict};
use barustenberg::field::{Fq, Fr};
use barustenberg::group::G1Affine;
use barustenberg::hash::HashType;
use barustenberg::label_map::LabelMap;
use barustenberg::polynomial::Polynomial;
use barustenberg::recursion::{
    recover_fq_from_limbs, recover_points, NUM_LIMB_BITS_IN_FIELD_SIMULATION, NUM_RECURSION_INDICES,
};
use barustenberg::settings::{
    polynomial_manifest, ComposerType, PolynomialSource, Settings,
};

#[test]
fn variants_fix_width_hash_and_challenge_size() {
    let all = [
        (Settings::Standard, 3, HashType::Blake3s, 16, ComposerType::Standard),
        (Settings::Turbo, 4, HashType::Blake3s, 16, ComposerType::Turbo),
        (Settings::Ultra, 4, HashType::Blake3s, 16, ComposerType::Plookup),
        (Settings::UltraToStandard, 4, HashType::Blake3s, 16, ComposerType::Plookup),
        (Settings::UltraWithKeccak, 4, HashType::Keccak256, 32, ComposerType::Plookup),
    ];
    for (settings, width, hash_type, bytes, composer) in all {
        assert_eq!(settings.program_width(), width);
        assert_eq!(settings.hash_type(), hash_type);
        assert_eq!(settings.num_challenge_bytes(), bytes);
        assert_eq!(settings.composer_type(), composer);
    }
}

#[test]
fn composer_types_have_codes() {
    assert_eq!(ComposerType::Standard.code(), 0);
    assert_eq!(ComposerType::Turbo.code(), 1);
    assert_eq!(ComposerType::Plookup.code(), 2);
    assert_eq!(ComposerType::from_code(0), Some(ComposerType::Standard));
    assert_eq!(ComposerType::from_code(1), Some(ComposerType::Turbo));
    assert_eq!(ComposerType::from_code(2), Some(ComposerType::Plookup));
    assert_eq!(ComposerType::from_code(3), None);
    assert_eq!(ComposerType::from_code(u32::MAX), None);
}

#[test]
fn the_standard_circuit_has_twelve_polynomials() {
    let manifest = polynomial_manifest(ComposerType::Standard);
    let labels: Vec<(&str, &str)> = manifest
        .entries
        .iter()
        .map(|d| (d.commitment_label.as_str(), d.polynomial_label.as_str()))
        .collect();
    assert_eq!(
        labels,
        vec![
            ("W_1", "w_1"),
            ("W_2", "w_2"),
            ("W_3", "w_3"),
            ("Z_PERM", "z_perm"),
            ("Q_1", "q_1"),
            ("Q_2", "q_2"),
            ("Q_3", "q_3"),
            ("Q_M", "q_m"),
            ("Q_C", "q_c"),
            ("SIGMA_1", "sigma_1"),
            ("SIGMA_2", "sigma_2"),
            ("SIGMA_3", "sigma_3"),
        ]
    );
    let shifted: Vec<bool> = manifest.entries.iter().map(|d| d.requires_shifted_evaluation).collect();
    assert_eq!(shifted.iter().filter(|s| **s).count(), 1);
    assert!(shifted[3]);
    assert_eq!(manifest.entries[0].source, PolynomialSource::Witness);
    assert_eq!(manifest.entries[3].source, PolynomialSource::Witness);
    assert_eq!(manifest.entries[4].source, PolynomialSource::Selector);
    assert_eq!(manifest.entries[9].source, PolynomialSource::Permutation);
    assert_eq!(polynomial_manifest(ComposerType::Turbo).size(), 20);
    assert_eq!(polynomial_manifest(ComposerType::Plookup).size(), 30);
    let copy = manifest.duplicate();
    assert_eq!(copy.size(), 12);
    assert_eq!(copy.entries[7].commitment_label, "Q_M");
}

#[test]
fn manifests_list_the_rounds_of_each_variant() {
    let m = Settings::Standard.create_manifest(2);
    assert_eq!(m.get_num_rounds(), 7);
    let round = |i: usize| -> Vec<(&str, usize, bool)> {
        m.rounds[i]
            .elements
            .iter()
            .map(|e| (e.name.as_str(), e.num_bytes, e.derived_by_verifier))
            .collect()
    };
    assert_eq!(round(0), vec![("circuit_size", 4, true), ("public_input_size", 4, true)]);
    assert_eq!(
        round(1),
        vec![("public_inputs", 64, false), ("W_1", 64, false), ("W_2", 64, false), ("W_3", 64, false)]
    );
    assert!(round(2).is_empty());
    assert_eq!(round(3), vec![("Z_PERM", 64, false)]);
    assert_eq!(round(4), vec![("T_1", 64, false), ("T_2", 64, false), ("T_3", 64, false)]);
    let evaluations = round(5);
    assert_eq!(evaluations.len(), 14);
    assert_eq!(evaluations[0], ("t", 32, true));
    assert_eq!(evaluations[1], ("w_1", 32, false));
    assert_eq!(evaluations[12], ("sigma_3", 32, false));
    assert_eq!(evaluations[13], ("z_perm_omega", 32, false));
    assert_eq!(round(6), vec![("PI_Z", 64, false), ("PI_Z_OMEGA", 64, false)]);
    let challenges: Vec<(&str, usize)> =
        m.rounds.iter().map(|r| (r.challenge.as_str(), r.num_challenges)).collect();
    assert_eq!(
        challenges,
        vec![
            ("init", 1),
            ("eta", 1),
            ("beta", 2),
            ("alpha", 1),
            ("z", 1),
            ("nu", 14),
            ("separator", 1)
        ]
    );
    // four wires, and the lookup variant has two grand products
    let turbo = Settings::Turbo.create_manifest(0);
    assert_eq!(turbo.rounds[1].elements.len(), 5);
    assert_eq!(turbo.rounds[1].elements[0].num_bytes, 0);
    assert_eq!(turbo.rounds[4].elements.len(), 4);
    assert_eq!(turbo.rounds[5].num_challenges, 1 + 20 + 5);
    let ultra = Settings::UltraWithKeccak.create_manifest(0);
    assert_eq!(ultra.rounds[1].elements.len(), 6);
    assert_eq!(ultra.rounds[1].elements[5].name, "S");
    assert_eq!(ultra.rounds[3].elements.len(), 2);
    assert_eq!(ultra.rounds[5].num_challenges, 1 + 30 + 11);
    assert_eq!(ultra.rounds[5].elements.last().unwrap().name, "table_value_4_omega");
}

#[test]
fn limbs_of_68_bits_spell_a_coordinate() {
    assert_eq!(NUM_LIMB_BITS_IN_FIELD_SIMULATION, 68);
    assert_eq!(NUM_RECURSION_INDICES, 16);
    let limb = |v: u64| Fr::from_u64(v);
    assert_eq!(recover_fq_from_limbs(&limb(5), &limb(0), &limb(0), &limb(0)), Fq::from_u64(5));
    // 2^68, 2^136 and 2^204
    assert_eq!(
        recover_fq_from_limbs(&limb(0), &limb(1), &limb(0), &limb(0)).limbs,
        [0, 1 << 4, 0, 0]
    );
    assert_eq!(
        recover_fq_from_limbs(&limb(0), &limb(0), &limb(1), &limb(0)).limbs,
        [0, 0, 1 << 8, 0]
    );
    assert_eq!(
        recover_fq_from_limbs(&limb(0), &limb(0), &limb(0), &limb(1)).limbs,
        [0, 0, 0, 1 << 12]
    );
    assert_eq!(
        recover_fq_from_limbs(&limb(7), &limb(3), &limb(2), &limb(1)).limbs,
        [7, 3 << 4, 2 << 8, 1 << 12]
    );
    // limbs that overlap add up, and what exceeds the order is reduced
    let big = Fr::zero().sub(&Fr::one());
    let expected = Fq::from_fr(&big)
        .add(&Fq::from_fr(&big).mul(&Fq { limbs: [0, 1 << 4, 0, 0] }))
        .add(&Fq::from_fr(&big).mul(&Fq { limbs: [0, 0, 1 << 8, 0] }))
        .add(&Fq::from_fr(&big).mul(&Fq { limbs: [0, 0, 0, 1 << 12] }));
    assert_eq!(recover_fq_from_limbs(&big, &big, &big, &big), expected);
}

#[test]
fn two_points_are_recovered_from_sixteen_public_inputs() {
    let inputs: Vec<Fr> = (0..20).map(|i| Fr::from_u64(100 + i)).collect();
    let indices: Vec<u32> = (2..18).rev().collect();
    let (p0, p1) = recover_points(&inputs, &indices);
    let at = |k: usize| &inputs[indices[k] as usize];
    assert_eq!(p0.x, recover_fq_from_limbs(at(0), at(1), at(2), at(3)));
    assert_eq!(p0.y, recover_fq_from_limbs(at(4), at(5), at(6), at(7)));
    assert_eq!(p1.x, recover_fq_from_limbs(at(8), at(9), at(10), at(11)));
    assert_eq!(p1.y, recover_fq_from_limbs(at(12), at(13), at(14), at(15)));
    assert!(!p0.infinity && !p1.infinity);
    // the generator, limb by limb
    let mut inputs = vec![Fr::zero(); 16];
    inputs[0] = Fr::one();
    inputs[4] = Fr::from_u64(2);
    inputs[8] = Fr::one();
    inputs[12] = Fr::from_u64(2);
    let (p0, p1) = recover_points(&inputs, &(0..16).collect());
    assert_eq!(p0, G1Affine::generator());
    assert_eq!(p1, G1Affine::generator());
}

#[test]
fn projective_points_at_infinity() {
    let point = |x: u64, y: u64, z: u64| G1Projective {
        x: Fq::from_u64(x),
        y: Fq::from_u64(y),
        z: Fq::from_u64(z),
    };
    assert!(is_point_at_infinity(&point(0, 1, 0)));
    assert!(is_point_at_infinity(&point(1, 0, 0)));
    assert!(is_point_at_infinity(&point(1, 1, 0)));
    // all three zero is no point at all
    assert!(!is_point_at_infinity(&point(0, 0, 0)));
    assert!(!is_point_at_infinity(&point(1, 2, 1)));
    assert!(!is_point_at_infinity(&point(0, 0, 1)));
    assert!(is_point_at_infinity(&G1Projective::from_affine(&G1Affine::identity())));
    let g = G1Projective::from_affine(&G1Affine::generator());
    assert!(!is_point_at_infinity(&g));
    assert_eq!((g.x, g.y, g.z), (Fq::one(), Fq::from_u64(2), Fq::one()));
}

#[test]
fn label_maps_keep_insertion_order_and_replace() {
    let mut m: LabelMap<u32> = LabelMap::new();
    assert_eq!(m.len(), 0);
    assert_eq!(m.insert("b", 1), 0);
    assert_eq!(m.insert("a", 2), 1);
    assert_eq!(m.insert("b", 3), 0);
    assert_eq!(m.len(), 2);
    assert_eq!(m.keys, vec!["b".to_string(), "a".to_string()]);
    assert_eq!(m.values, vec![3, 2]);
    assert_eq!(m.get("a"), Some(&2));
    assert_eq!(m.get("b"), Some(&3));
    assert_eq!(m.get("c"), None);
    assert_eq!(m.get(""), None);
    assert_eq!(m.find("a"), Some(1));
    assert!(m.contains("b"));
    assert!(!m.contains("B"));
    assert_eq!(m.insert("", 9), 2);
    assert_eq!(m.get(""), Some(&9));
    let copy = m.duplicate();
    assert_eq!(copy.keys, m.keys);
    assert_eq!(copy.values, m.values);
}

#[test]
fn polynomials_are_lists_of_coefficients() {
    let mut p = Polynomial::new(3);
    assert_eq!(p.size(), 3);
    assert_eq!(p.coefficients, vec![Fr::zero(); 3]);
    p.set(1, Fr::from_u64(5));
    assert_eq!(p.get(1), Fr::from_u64(5));
    assert_eq!(p.get(0), Fr::zero());
    assert_eq!(p.evaluate(&Fr::from_u64(2)), Fr::from_u64(10));
    assert_eq!(Polynomial::new(0).size(), 0);
    assert_eq!(Polynomial::new(0).evaluate(&Fr::from_u64(2)), Fr::zero());
}

#[test]
fn verdicts_and_errors_are_plain_values() {
    assert_ne!(Verdict::Accept, Verdict::Reject(RejectReason::PairingMismatch));
    assert_ne!(
        Verdict::Reject(RejectReason::InvalidPoint),
        Verdict::Reject(RejectReason::MissingChallenge)
    );
    assert_ne!(Verdict::Reject(RejectReason::SrsExceeded), Verdict::Accept);
    assert_ne!(Error::InvalidInput, Error::InvalidProof);
    assert_ne!(Error::MissingElement, Error::MissingChallenge);
    assert_ne!(Error::TypeMismatch, Error::ProtocolError);
    assert_ne!(Error::InsufficientSrs, Error::SerializationError);
}

#[test]
fn canonical_limbs_and_well_formed_maps_are_told_apart() {
    assert!(Fr::zero().is_canonical());
    assert!(Fr::zero().sub(&Fr::one()).is_canonical());
    assert!(!Fr { limbs: [u64::MAX; 4] }.is_canonical());
    assert!(
        !Fr { limbs: [0x43e1f593f0000001, 0x2833e84879b97091, 0xb85045b68181585d, 0x30644e72e131a029] }
            .is_canonical()
    );
    assert!(
        Fq { limbs: [0x43e1f593f0000001, 0x2833e84879b97091, 0xb85045b68181585d, 0x30644e72e131a029] }
            .is_canonical()
    );
    assert!(!Fq { limbs: [0, 0, 0, u64::MAX] }.is_canonical());
    let mut m: LabelMap<u32> = LabelMap::new();
    assert!(m.is_well_formed());
    m.insert("a", 1);
    m.insert("b", 2);
    m.insert("c", 3);
    assert!(m.is_well_formed());
    m.keys.push("b".to_string());
    assert!(!m.is_well_formed());
    m.values.push(4);
    assert!(!m.is_well_formed());
    m.keys[3] = "d".to_string();
    assert!(m.is_well_formed());
}
