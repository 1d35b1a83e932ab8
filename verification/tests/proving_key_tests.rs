use barustenberg::errors::Error;
use barustenberg::field::Fr;
use barustenberg::polynomial::Polynomial;
use barustenberg::polynomial_store::PolynomialStore;
use barustenberg::proving_key::{log2_ceil, ProvingKey, ProvingKeyData, NUM_QUOTIENT_PARTS};
use barustenberg::reference_string::ProverReferenceString;
use barustenberg::settings::ComposerType;

fn empty_srs() -> ProverReferenceString {
    ProverReferenceString::new(Vec::new())
}

#[test]
fn test_stub() {
    let num_gates = 6;
    let num_inputs = 2;
    let key = ProvingKey::new(num_gates, num_inputs, empty_srs(), ComposerType::Standard).unwrap();
    assert_eq!(key.composer_type, 0);
    assert_eq!(key.circuit_size, 8);
    assert_eq!(key.log_circuit_size, 3);
    assert_eq!(key.num_public_inputs, 2);
    assert!(!key.contains_recursive_proof);
    assert!(key.recursive_proof_public_input_indices.is_empty());
    assert!(key.memory_read_records.is_empty());
    assert!(key.memory_write_records.is_empty());
    assert_eq!(key.polynomial_store.len(), 0);
    assert_eq!(key.small_domain.size, 8);
    assert_eq!(key.large_domain.size, 32);
    assert_eq!(key.small_domain.roots.len(), 8);
    assert_eq!(key.large_domain.roots.len(), 32);
    assert_eq!(key.quotient_polynomial_parts.len(), NUM_QUOTIENT_PARTS);
    for i in 0..3 {
        assert_eq!(key.quotient_polynomial_parts[i].size(), 9);
    }
    assert_eq!(key.quotient_polynomial_parts[3].size(), 8);
    for part in key.quotient_polynomial_parts.iter() {
        assert!(part.coefficients.iter().all(|c| c.is_zero()));
    }
    assert_eq!(key.polynomial_manifest.size(), 12);
}

#[test]
fn proving_key_from_data_keeps_the_data() {
    let mut store = PolynomialStore::new();
    store.put("q_1", Polynomial::from_coefficients(vec![Fr::from_u64(1); 4]));
    store.put("q_2", Polynomial::from_coefficients(vec![Fr::from_u64(2); 4]));
    let data = ProvingKeyData {
        composer_type: 1,
        circuit_size: 4,
        num_public_inputs: 1,
        contains_recursive_proof: true,
        recursive_proof_public_input_indices: (0..16).collect(),
        memory_read_records: vec![1, 2],
        memory_write_records: vec![3],
        polynomial_store: store,
    };
    let key = ProvingKey::new_with_data(data, empty_srs()).unwrap();
    assert_eq!(key.composer_type, 1);
    assert_eq!(key.circuit_size, 4);
    assert_eq!(key.log_circuit_size, 2);
    assert_eq!(key.num_public_inputs, 1);
    assert!(key.contains_recursive_proof);
    assert_eq!(key.recursive_proof_public_input_indices, (0..16).collect::<Vec<u32>>());
    assert_eq!(key.memory_read_records, vec![1, 2]);
    assert_eq!(key.memory_write_records, vec![3]);
    assert_eq!(key.polynomial_store.len(), 2);
    assert_eq!(key.polynomial_store.get("q_2").unwrap().get(0), Fr::from_u64(2));
    assert_eq!(key.large_domain.size, 16);
    assert_eq!(key.polynomial_manifest.size(), 20);
}

#[test]
fn proving_key_refuses_sizes_that_are_no_domain() {
    let data = |composer_type: u32, circuit_size: u32| ProvingKeyData {
        composer_type,
        circuit_size,
        num_public_inputs: 0,
        contains_recursive_proof: false,
        recursive_proof_public_input_indices: vec![],
        memory_read_records: vec![],
        memory_write_records: vec![],
        polynomial_store: PolynomialStore::new(),
    };
    assert_eq!(ProvingKey::new_with_data(data(0, 3), empty_srs()).err(), Some(Error::InvalidInput));
    assert_eq!(ProvingKey::new_with_data(data(0, 12), empty_srs()).err(), Some(Error::InvalidInput));
    assert_eq!(ProvingKey::new_with_data(data(3, 4), empty_srs()).err(), Some(Error::InvalidInput));
    assert_eq!(
        ProvingKey::new_with_data(data(0, (1 << 26) + 1), empty_srs()).err(),
        Some(Error::InvalidInput)
    );
    assert_eq!(
        ProvingKey::new_with_data(data(0, 1 << 27), empty_srs()).err(),
        Some(Error::InvalidInput)
    );
    assert!(ProvingKey::new_with_data(data(2, 1), empty_srs()).is_ok());
    assert!(ProvingKey::new_with_data(data(0, 0), empty_srs()).is_ok());
    assert_eq!(
        ProvingKey::new(5, 2, empty_srs(), ComposerType::Standard).err(),
        Some(Error::InvalidInput)
    );
    assert_eq!(
        ProvingKey::new(usize::MAX, 1, empty_srs(), ComposerType::Standard).err(),
        Some(Error::InvalidInput)
    );
}

#[test]
fn default_proving_key_is_the_empty_circuit() {
    let key = ProvingKey::default();
    assert_eq!(key.composer_type, 0);
    assert_eq!(key.circuit_size, 0);
    assert_eq!(key.log_circuit_size, 0);
    assert_eq!(key.num_public_inputs, 0);
    assert!(!key.contains_recursive_proof);
    assert_eq!(key.polynomial_store.len(), 0);
    assert_eq!(key.small_domain.size, 0);
    assert_eq!(key.large_domain.size, 0);
    assert_eq!(key.reference_string.get_monomial_size(), 0);
    assert_eq!(key.quotient_polynomial_parts.len(), 4);
    assert!(key.quotient_polynomial_parts.iter().all(|p| p.size() == 0));
    assert_eq!(key.polynomial_manifest.size(), 0);
}

#[test]
fn init_sets_fresh_quotient_parts() {
    let mut key = ProvingKey::new(4, 0, empty_srs(), ComposerType::Standard).unwrap();
    key.quotient_polynomial_parts[0].set(0, Fr::from_u64(5));
    key.init();
    assert_eq!(key.quotient_polynomial_parts[0].get(0), Fr::zero());
    assert_eq!(key.quotient_polynomial_parts[0].size(), 5);
    assert_eq!(key.quotient_polynomial_parts[3].size(), 4);
    let mut key = ProvingKey::new(0, 0, empty_srs(), ComposerType::Standard).unwrap();
    key.init();
    assert_eq!(key.small_domain.roots.len(), 0);
    assert_eq!(key.quotient_polynomial_parts[0].size(), 1);
    assert_eq!(key.quotient_polynomial_parts[3].size(), 0);
}

#[test]
fn log2_ceil_is_the_least_exponent() {
    assert_eq!(log2_ceil(0), 0);
    assert_eq!(log2_ceil(1), 0);
    assert_eq!(log2_ceil(2), 1);
    assert_eq!(log2_ceil(3), 2);
    assert_eq!(log2_ceil(4), 2);
    assert_eq!(log2_ceil(5), 3);
    assert_eq!(log2_ceil(1 << 14), 14);
    assert_eq!(log2_ceil((1 << 14) + 1), 15);
    assert_eq!(log2_ceil(usize::MAX), usize::BITS as usize);
}

#[test]
fn store_overwrites_and_keeps_handles() {
    let mut store = PolynomialStore::new();
    let a = store.put("a", Polynomial::new(3));
    let b = store.put("b", Polynomial::new(4));
    assert_eq!((a, b), (0, 1));
    assert_eq!(store.len(), 2);
    let again = store.put("a", Polynomial::from_coefficients(vec![Fr::one()]));
    assert_eq!(again, a);
    assert_eq!(store.len(), 2);
    assert_eq!(store.get("a").unwrap().size(), 1);
    assert_eq!(store.get("b").unwrap().size(), 4);
    assert_eq!(store.handle_of("b"), Some(1));
    assert_eq!(store.handle_of("c"), None);
    assert!(store.get("c").is_none());
    assert_eq!(store.polynomial(1).size(), 4);
}

#[test]
fn a_store_tells_whether_it_is_well_formed() {
    let mut store = PolynomialStore::new();
    assert!(store.is_well_formed());
    store.put("a", Polynomial::from_coefficients(vec![Fr::one(), Fr::from_u64(7)]));
    store.put("b", Polynomial::new(2));
    assert!(store.is_well_formed());
    // a coefficient that is no scalar
    let mut broken = PolynomialStore::new();
    broken.put("a", Polynomial::new(2));
    broken.polynomials.values[0].coefficients[1] = Fr { limbs: [u64::MAX; 4] };
    assert!(!broken.is_well_formed());
    // a label twice
    let mut twice = PolynomialStore::new();
    twice.put("a", Polynomial::new(1));
    twice.polynomials.keys.push("a".to_string());
    twice.polynomials.values.push(Polynomial::new(1));
    assert!(!twice.is_well_formed());
}

fn filled_key() -> ProvingKey {
    let mut key = ProvingKey::new(4, 0, empty_srs(), ComposerType::Standard).unwrap();
    let labels = ["q_1", "q_2", "q_3", "q_m", "q_c", "sigma_1", "sigma_2", "sigma_3"];
    for (i, label) in labels.iter().enumerate() {
        let coefficients = (0..4).map(|k| Fr::from_u64((10 * i + k) as u64).neg()).collect();
        key.polynomial_store.put(label, Polynomial::from_coefficients(coefficients));
    }
    // a witness is not persisted
    key.polynomial_store.put("w_1", Polynomial::new(4));
    key.contains_recursive_proof = true;
    key.recursive_proof_public_input_indices = (3..19).collect();
    key.memory_read_records = vec![7, 8, 9];
    key.memory_write_records = vec![];
    key
}

#[test]
fn persisted_keys_are_read_back() {
    let key = filled_key();
    let bytes = key.to_bytes().unwrap();
    let data = ProvingKeyData::from_bytes(&bytes).unwrap();
    assert_eq!(data.composer_type, 0);
    assert_eq!(data.circuit_size, 4);
    assert_eq!(data.num_public_inputs, 0);
    assert!(data.contains_recursive_proof);
    assert_eq!(data.recursive_proof_public_input_indices, (3..19).collect::<Vec<u32>>());
    assert_eq!(data.memory_read_records, vec![7, 8, 9]);
    assert!(data.memory_write_records.is_empty());
    assert_eq!(data.polynomial_store.len(), 8);
    assert!(data.polynomial_store.get("w_1").is_none());
    for label in ["q_1", "q_2", "q_3", "q_m", "q_c", "sigma_1", "sigma_2", "sigma_3"] {
        assert_eq!(
            data.polynomial_store.get(label).unwrap().coefficients,
            key.polynomial_store.get(label).unwrap().coefficients
        );
    }
    let again = ProvingKey::new_with_data(data, empty_srs()).unwrap();
    assert_eq!(again.to_bytes().unwrap(), bytes);
}

#[test]
fn persisted_key_has_the_layout() {
    let key = filled_key();
    let bytes = key.to_bytes().unwrap();
    // four numbers, eight polynomials, a truth value, three lists
    let entry = |label: &str| 4 + label.len() + 4 + 4 * 32;
    let labels = ["q_1", "q_2", "q_3", "q_m", "q_c", "sigma_1", "sigma_2", "sigma_3"];
    let entries: usize = labels.iter().map(|l| entry(l)).sum();
    assert_eq!(bytes.len(), 16 + entries + 1 + (4 + 16 * 4) + (4 + 3 * 4) + 4);
    assert_eq!(&bytes[..16], &[0, 0, 0, 0, 0, 0, 0, 4, 0, 0, 0, 0, 0, 0, 0, 8]);
    assert_eq!(&bytes[16..20], &[0, 0, 0, 3]);
    assert_eq!(&bytes[20..23], b"q_1");
    assert_eq!(&bytes[23..27], &[0, 0, 0, 4]);
    assert_eq!(&bytes[27..59], &Fr::zero().to_be_bytes()[..]);
    assert_eq!(&bytes[59..91], &Fr::from_u64(1).neg().to_be_bytes()[..]);
    let tail = 16 + entries;
    assert_eq!(bytes[tail], 1);
    assert_eq!(&bytes[tail + 1..tail + 9], &[0, 0, 0, 16, 0, 0, 0, 3]);
    assert_eq!(&bytes[bytes.len() - 4..], &[0, 0, 0, 0]);
}

#[test]
fn keys_that_lack_a_fixed_polynomial_are_not_persisted() {
    let key = ProvingKey::new(4, 0, empty_srs(), ComposerType::Standard).unwrap();
    assert_eq!(key.to_bytes(), Err(Error::SerializationError));
    // the empty key fixes no polynomial
    let bytes = ProvingKey::default().to_bytes().unwrap();
    assert_eq!(bytes, vec![0u8; 16 + 1 + 12]);
    let data = ProvingKeyData::from_bytes(&bytes).unwrap();
    assert_eq!(data.circuit_size, 0);
    assert_eq!(data.polynomial_store.len(), 0);
}

#[test]
fn malformed_persisted_keys_are_refused() {
    let bytes = filled_key().to_bytes().unwrap();
    let read = |b: &[u8]| ProvingKeyData::from_bytes(b).err();
    assert_eq!(read(&[]), Some(Error::SerializationError));
    for cut in [1usize, 15, 16, 19, 21, 30, 100, bytes.len() - 1] {
        assert_eq!(read(&bytes[..cut]), Some(Error::SerializationError), "cut at {}", cut);
    }
    let mut longer = bytes.clone();
    longer.push(0);
    assert_eq!(read(&longer), Some(Error::SerializationError));
    // a coefficient that is not canonical
    let mut damaged = bytes.clone();
    damaged[27..59].copy_from_slice(&[0xff; 32]);
    assert_eq!(read(&damaged), Some(Error::SerializationError));
    // a label that is no text
    let mut damaged = bytes.clone();
    damaged[20] = 0xff;
    assert_eq!(read(&damaged), Some(Error::SerializationError));
    // a truth value that is neither zero nor one
    let entries: usize = bytes.len() - (1 + (4 + 16 * 4) + (4 + 3 * 4) + 4);
    let mut damaged = bytes.clone();
    damaged[entries] = 2;
    assert_eq!(read(&damaged), Some(Error::SerializationError));
    // a length that promises more than there is
    let mut damaged = bytes.clone();
    damaged[12..16].copy_from_slice(&[0, 0, 0, 9]);
    assert_eq!(read(&damaged), Some(Error::SerializationError));
    assert!(ProvingKeyData::from_bytes(&bytes).is_ok());
}

#[test]
fn a_label_persisted_twice_keeps_the_later_polynomial() {
    // one entry "a" with one coefficient, then "a" again with two
    let mut bytes = vec![0u8; 12];
    bytes.extend_from_slice(&[0, 0, 0, 2]);
    for coefficients in [vec![Fr::from_u64(1)], vec![Fr::from_u64(2), Fr::from_u64(3)]] {
        bytes.extend_from_slice(&[0, 0, 0, 1, b'a']);
        bytes.extend_from_slice(&(coefficients.len() as u32).to_be_bytes());
        for c in coefficients {
            bytes.extend_from_slice(&c.to_be_bytes());
        }
    }
    bytes.push(0);
    bytes.extend_from_slice(&[0u8; 12]);
    let data = ProvingKeyData::from_bytes(&bytes).unwrap();
    assert_eq!(data.polynomial_store.len(), 1);
    assert_eq!(
        data.polynomial_store.get("a").unwrap().coefficients,
        vec![Fr::from_u64(2), Fr::from_u64(3)]
    );
}
