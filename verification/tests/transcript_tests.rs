use barustenberg::errors::Error;
use barustenberg::field::Fr;
use barustenberg::group::G1Affine;
use barustenberg::bytes::g1_to_bytes;
use barustenberg::hash::{hash, HashType};
use barustenberg::manifest::{Manifest, ManifestEntry, RoundManifest};
use barustenberg::transcript::Transcript;

fn manifest() -> Manifest {
    Manifest::new(vec![
        RoundManifest::new(
            vec![ManifestEntry::new("a", 4, false), ManifestEntry::new("b", 32, false)],
            "first",
            1,
        ),
        RoundManifest::new(vec![], "empty", 0),
        RoundManifest::new(
            vec![ManifestEntry::new("c", 64, false), ManifestEntry::new("d", 32, true)],
            "second",
            3,
        ),
    ])
}

fn filled(hash_type: HashType, num_challenge_bytes: usize) -> Transcript {
    let mut t = Transcript::new(manifest(), hash_type, num_challenge_bytes).unwrap();
    t.add_element("a", vec![1, 2, 3, 4]);
    t.add_element("b", Fr::from_u64(5).to_be_bytes());
    t.add_element("c", g1_to_bytes(&G1Affine::generator()));
    t.add_element("d", Fr::from_u64(6).to_be_bytes());
    t
}

fn run(t: &mut Transcript) {
    t.apply_fiat_shamir("first").unwrap();
    t.apply_fiat_shamir("empty").unwrap();
    t.apply_fiat_shamir("second").unwrap();
}

fn challenges(t: &Transcript) -> Vec<Fr> {
    let mut out = vec![t.get_challenge_field_element("first", 0).unwrap()];
    for i in 0..3 {
        out.push(t.get_challenge_field_element("second", i).unwrap());
    }
    out
}

#[test]
fn hash_functions_give_known_digests() {
    let keccak = hash(HashType::Keccak256, &[]);
    assert_eq!(
        keccak,
        vec![
            0xc5, 0xd2, 0x46, 0x01, 0x86, 0xf7, 0x23, 0x3c, 0x92, 0x7e, 0x7d, 0xb2, 0xdc, 0xc7,
            0x03, 0xc0, 0xe5, 0x00, 0xb6, 0x53, 0xca, 0x82, 0x27, 0x3b, 0x7b, 0xfa, 0xd8, 0x04,
            0x5d, 0x85, 0xa4, 0x70
        ]
    );
    let blake = hash(HashType::Blake3s, &[]);
    assert_eq!(
        blake,
        vec![
            0xaf, 0x13, 0x49, 0xb9, 0xf5, 0xf9, 0xa1, 0xa6, 0xa0, 0x40, 0x4d, 0xea, 0x36, 0xdc,
            0xc9, 0x49, 0x9b, 0xcb, 0x25, 0xc9, 0xad, 0xc1, 0x12, 0xb7, 0xcc, 0x9a, 0x93, 0xca,
            0xe4, 0x1f, 0x32, 0x62
        ]
    );
    assert_ne!(hash(HashType::Keccak256, &[0]), keccak);
    assert_ne!(hash(HashType::Blake3s, &[0]), blake);
    assert_eq!(hash(HashType::Keccak256, b"abc").len(), 32);
    assert_eq!(
        &hash(HashType::Keccak256, b"abc")[..4],
        &[0x4e, 0x03, 0x65, 0x7a]
    );
}

#[test]
fn equal_transcripts_derive_equal_challenges() {
    for (hash_type, bytes) in [(HashType::Keccak256, 32), (HashType::Blake3s, 16)] {
        let mut first = filled(hash_type, bytes);
        let mut second = filled(hash_type, bytes);
        run(&mut first);
        run(&mut second);
        assert_eq!(challenges(&first), challenges(&second));
        assert_eq!(first.current_challenge, second.current_challenge);
        assert_eq!(first.current_round, 3);
    }
}

#[test]
fn a_flipped_byte_changes_every_later_challenge() {
    let mut reference = filled(HashType::Keccak256, 32);
    run(&mut reference);
    let reference = challenges(&reference);
    // in the first round: all challenges change
    let mut t = filled(HashType::Keccak256, 32);
    t.add_element("a", vec![1, 2, 3, 5]);
    run(&mut t);
    let changed = challenges(&t);
    for i in 0..4 {
        assert_ne!(changed[i], reference[i]);
    }
    // in the last round: the earlier challenge stays
    let mut t = filled(HashType::Keccak256, 32);
    let mut c = g1_to_bytes(&G1Affine::generator());
    c[63] ^= 1;
    t.add_element("c", c);
    run(&mut t);
    let changed = challenges(&t);
    assert_eq!(changed[0], reference[0]);
    for i in 1..4 {
        assert_ne!(changed[i], reference[i]);
    }
}

#[test]
fn challenges_follow_the_hash_chain() {
    let mut t = filled(HashType::Keccak256, 32);
    run(&mut t);
    let mut buffer = vec![1u8, 2, 3, 4];
    buffer.extend_from_slice(&Fr::from_u64(5).to_be_bytes());
    let first = hash(HashType::Keccak256, &buffer);
    assert_eq!(t.challenges.get("first").unwrap()[0], first);
    assert_eq!(
        t.get_challenge_field_element("first", 0).unwrap(),
        Fr::from_be_bytes_mod_order(&first)
    );
    // the round without challenges changes nothing; the next round hashes
    // the last challenge and its elements
    let mut buffer = first.clone();
    buffer.extend_from_slice(&g1_to_bytes(&G1Affine::generator()));
    buffer.extend_from_slice(&Fr::from_u64(6).to_be_bytes());
    let base = hash(HashType::Keccak256, &buffer);
    let list = t.challenges.get("second").unwrap();
    assert_eq!(list.len(), 3);
    assert_eq!(list[0], base);
    for i in 1..3u8 {
        let mut input = base.clone();
        input.push(i);
        assert_eq!(list[i as usize], hash(HashType::Keccak256, &input));
    }
    assert_eq!(t.current_challenge, list[2]);
    assert!(t.challenges.get("empty").is_none());
}

#[test]
fn short_challenges_are_the_leading_bytes() {
    let mut t = filled(HashType::Blake3s, 16);
    run(&mut t);
    let mut buffer = vec![1u8, 2, 3, 4];
    buffer.extend_from_slice(&Fr::from_u64(5).to_be_bytes());
    let first = hash(HashType::Blake3s, &buffer);
    assert_eq!(t.challenges.get("first").unwrap()[0], first[..16].to_vec());
    assert_eq!(
        t.get_challenge_field_element("first", 0).unwrap(),
        Fr::from_be_bytes_mod_order(&first[..16])
    );
}

#[test]
fn the_hash_function_matters() {
    let mut keccak = filled(HashType::Keccak256, 32);
    let mut blake = filled(HashType::Blake3s, 32);
    run(&mut keccak);
    run(&mut blake);
    assert_ne!(challenges(&keccak), challenges(&blake));
}

#[test]
fn readding_an_element_replaces_it() {
    let mut t = filled(HashType::Keccak256, 32);
    assert_eq!(t.get_element("a"), Ok(vec![1, 2, 3, 4]));
    t.add_element("a", vec![9, 9, 9, 9]);
    assert_eq!(t.get_element("a"), Ok(vec![9, 9, 9, 9]));
    assert!(t.has_element("a"));
    assert!(!t.has_element("z"));
}

#[test]
fn fiat_shamir_fails_without_changing_the_transcript() {
    // the wrong round
    let mut t = filled(HashType::Keccak256, 32);
    assert_eq!(t.apply_fiat_shamir("second"), Err(Error::ProtocolError));
    assert_eq!(t.current_round, 0);
    // an element is missing
    let mut t = Transcript::new(manifest(), HashType::Keccak256, 32).unwrap();
    t.add_element("a", vec![1, 2, 3, 4]);
    assert_eq!(t.apply_fiat_shamir("first"), Err(Error::MissingElement));
    assert_eq!(t.current_round, 0);
    assert!(t.get_challenge_field_element("first", 0).is_err());
    // an element of the prover has the wrong size
    t.add_element("b", vec![0; 31]);
    assert_eq!(t.apply_fiat_shamir("first"), Err(Error::ProtocolError));
    // the first failure counts
    let mut t = Transcript::new(manifest(), HashType::Keccak256, 32).unwrap();
    t.add_element("b", vec![0; 31]);
    assert_eq!(t.apply_fiat_shamir("first"), Err(Error::MissingElement));
    // an element of the verifier may have any size
    let mut t = filled(HashType::Keccak256, 32);
    t.add_element("d", vec![1]);
    run(&mut t);
    // no round is left
    assert_eq!(t.apply_fiat_shamir("third"), Err(Error::ProtocolError));
    assert_eq!(t.current_round, 3);
}

#[test]
fn more_than_256_challenges_are_refused() {
    let manifest = Manifest::new(vec![RoundManifest::new(vec![], "many", 257)]);
    let mut t = Transcript::new(manifest, HashType::Keccak256, 32).unwrap();
    assert_eq!(t.apply_fiat_shamir("many"), Err(Error::ProtocolError));
    let manifest = Manifest::new(vec![RoundManifest::new(vec![], "many", 256)]);
    let mut t = Transcript::new(manifest, HashType::Keccak256, 32).unwrap();
    assert_eq!(t.apply_fiat_shamir("many"), Ok(()));
    assert!(t.get_challenge_field_element("many", 255).is_ok());
    assert_eq!(t.get_challenge_field_element("many", 256), Err(Error::MissingChallenge));
}

#[test]
fn challenge_sizes_outside_one_to_32_are_refused() {
    assert_eq!(Transcript::new(manifest(), HashType::Keccak256, 0).err(), Some(Error::InvalidInput));
    assert_eq!(Transcript::new(manifest(), HashType::Keccak256, 33).err(), Some(Error::InvalidInput));
    assert!(Transcript::new(manifest(), HashType::Keccak256, 1).is_ok());
    assert_eq!(
        Transcript::from_proof(&[0; 100], manifest(), HashType::Keccak256, 0).err(),
        Some(Error::InvalidInput)
    );
}

#[test]
fn typed_getters_tell_missing_from_mistyped() {
    let mut t = filled(HashType::Keccak256, 32);
    assert_eq!(t.get_element("nope"), Err(Error::MissingElement));
    assert_eq!(t.get_field_element("nope"), Err(Error::MissingElement));
    assert_eq!(t.get_group_element("nope"), Err(Error::MissingElement));
    assert_eq!(t.get_field_element_vector("nope"), Err(Error::MissingElement));
    assert_eq!(t.get_challenge_field_element("first", 0), Err(Error::MissingChallenge));
    assert_eq!(t.get_field_element("b"), Ok(Fr::from_u64(5)));
    assert_eq!(t.get_group_element("c"), Ok(G1Affine::generator()));
    // four bytes are no scalar, 32 bytes no point, 64 bytes no scalar
    assert_eq!(t.get_field_element("a"), Err(Error::TypeMismatch));
    assert_eq!(t.get_group_element("b"), Err(Error::TypeMismatch));
    assert_eq!(t.get_field_element("c"), Err(Error::TypeMismatch));
    // 64 bytes are two scalars
    assert_eq!(
        t.get_field_element_vector("c"),
        Ok(vec![Fr::from_u64(1), Fr::from_u64(2)])
    );
    assert_eq!(t.get_field_element_vector("a"), Err(Error::TypeMismatch));
    t.add_element("none", vec![]);
    assert_eq!(t.get_field_element_vector("none"), Ok(vec![]));
    // bytes that spell a number that is not below the order
    t.add_element("big", vec![0xff; 32]);
    assert_eq!(t.get_field_element("big"), Err(Error::TypeMismatch));
    assert_eq!(t.get_field_element_vector("big"), Err(Error::TypeMismatch));
    t.add_element("bigpoint", vec![0xff; 64]);
    assert_eq!(t.get_group_element("bigpoint"), Err(Error::TypeMismatch));
    run(&mut t);
    assert_eq!(t.get_challenge_field_element("second", 3), Err(Error::MissingChallenge));
    assert_eq!(t.get_challenge_field_element("empty", 0), Err(Error::MissingChallenge));
}

#[test]
fn proofs_are_read_and_written_in_manifest_order() {
    let mut t = filled(HashType::Keccak256, 32);
    let proof = t.export_proof().unwrap();
    assert_eq!(proof.len(), 4 + 32 + 64);
    assert_eq!(&proof[..4], &[1, 2, 3, 4]);
    assert_eq!(&proof[4..36], &Fr::from_u64(5).to_be_bytes()[..]);
    assert_eq!(&proof[36..], &g1_to_bytes(&G1Affine::generator())[..]);
    let mut read = Transcript::from_proof(&proof, manifest(), HashType::Keccak256, 32).unwrap();
    assert_eq!(read.get_element("a"), t.get_element("a"));
    assert_eq!(read.get_element("b"), t.get_element("b"));
    assert_eq!(read.get_element("c"), t.get_element("c"));
    // what the verifier derives is not in the proof
    assert_eq!(read.get_element("d"), Err(Error::MissingElement));
    read.add_element("d", Fr::from_u64(6).to_be_bytes());
    run(&mut t);
    run(&mut read);
    assert_eq!(challenges(&t), challenges(&read));
    assert_eq!(read.export_proof(), Ok(proof));
}

#[test]
fn proofs_of_the_wrong_length_are_refused() {
    let t = filled(HashType::Keccak256, 32);
    let proof = t.export_proof().unwrap();
    let read = |bytes: &[u8]| Transcript::from_proof(bytes, manifest(), HashType::Keccak256, 32);
    assert_eq!(read(&[]).err(), Some(Error::SerializationError));
    assert_eq!(read(&proof[..99]).err(), Some(Error::SerializationError));
    let mut longer = proof.clone();
    longer.push(0);
    assert_eq!(read(&longer).err(), Some(Error::SerializationError));
    assert!(read(&proof).is_ok());
    // a manifest without elements of the prover asks for the empty proof
    let none = Manifest::new(vec![RoundManifest::new(vec![ManifestEntry::new("x", 4, true)], "r", 1)]);
    assert!(Transcript::from_proof(&[], none, HashType::Keccak256, 32).is_ok());
}

#[test]
fn exporting_fails_on_missing_or_missized_elements() {
    let mut t = Transcript::new(manifest(), HashType::Keccak256, 32).unwrap();
    assert_eq!(t.export_proof(), Err(Error::MissingElement));
    t.add_element("a", vec![1, 2, 3]);
    assert_eq!(t.export_proof(), Err(Error::ProtocolError));
    t.add_element("a", vec![1, 2, 3, 4]);
    assert_eq!(t.export_proof(), Err(Error::MissingElement));
}

#[test]
fn manifests_copy_themselves() {
    let m = manifest();
    let copy = m.duplicate();
    assert_eq!(copy.get_num_rounds(), 3);
    assert_eq!(copy.rounds[0].challenge, "first");
    assert_eq!(copy.rounds[2].num_challenges, 3);
    assert_eq!(copy.rounds[2].elements[1].name, "d");
    assert_eq!(copy.rounds[2].elements[1].num_bytes, 32);
    assert!(copy.rounds[2].elements[1].derived_by_verifier);
    assert!(!copy.rounds[2].elements[0].derived_by_verifier);
}
