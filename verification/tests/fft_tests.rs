use ark_ff::{PrimeField, UniformRand};
use barustenberg::errors::Error;
use barustenberg::evaluation_domain::EvaluationDomain;
use barustenberg::fft::fft;
use barustenberg::field::Fr;
use barustenberg::pippenger::PippengerRuntimeState;
use barustenberg::polynomial::{evaluate, Polynomial};
use barustenberg::polynomial_store::PolynomialStore;
use barustenberg::reference_string::ProverReferenceString;
use barustenberg::work_queue::{Work, WorkItem, WorkQueue};
use rand::rngs::StdRng;
use rand::SeedableRng;

fn random_scalars(rng: &mut StdRng, n: usize) -> Vec<Fr> {
    (0..n).map(|_| Fr { limbs: ark_bn254::Fr::rand(rng).into_bigint().0 }).collect()
}

#[test]
fn the_transform_gives_the_values_at_the_powers_of_the_root() {
    let mut rng = StdRng::seed_from_u64(71);
    for log_size in 0..=6usize {
        let n = 1 << log_size;
        let domain = EvaluationDomain::new(n).unwrap();
        let coefficients = random_scalars(&mut rng, n);
        let values = domain.fft(&coefficients).unwrap();
        assert_eq!(values.len(), n);
        let mut point = Fr::one();
        for k in 0..n {
            assert_eq!(values[k], evaluate(&coefficients, &point, n), "size {} entry {}", n, k);
            point = point.mul(&domain.root);
        }
        assert_eq!(fft(&coefficients, &domain.root, log_size), values);
    }
}

#[test]
fn small_transforms_by_hand() {
    let one = EvaluationDomain::new(1).unwrap();
    assert_eq!(one.fft(&[Fr::from_u64(7)]), Ok(vec![Fr::from_u64(7)]));
    assert_eq!(one.ifft(&[Fr::from_u64(7)]), Ok(vec![Fr::from_u64(7)]));
    // 3 + 5 X at 1 and at -1
    let two = EvaluationDomain::new(2).unwrap();
    assert_eq!(
        two.fft(&[Fr::from_u64(3), Fr::from_u64(5)]),
        Ok(vec![Fr::from_u64(8), Fr::from_u64(2).neg()])
    );
    // the constant polynomial has one value, and the values of X are the roots
    let eight = EvaluationDomain::new(8).unwrap();
    let mut constant = vec![Fr::zero(); 8];
    constant[0] = Fr::from_u64(9);
    assert_eq!(eight.fft(&constant), Ok(vec![Fr::from_u64(9); 8]));
    let mut x = vec![Fr::zero(); 8];
    x[1] = Fr::one();
    let mut with_table = EvaluationDomain::new(8).unwrap();
    with_table.compute_lookup_table();
    assert_eq!(eight.fft(&x), Ok(with_table.roots.clone()));
}

#[test]
fn the_inverse_transform_gives_the_coefficients_back() {
    let mut rng = StdRng::seed_from_u64(72);
    for n in [1usize, 2, 4, 16, 64] {
        let domain = EvaluationDomain::new(n).unwrap();
        let coefficients = random_scalars(&mut rng, n);
        let values = domain.fft(&coefficients).unwrap();
        assert_eq!(domain.ifft(&values), Ok(coefficients.clone()));
        assert_eq!(domain.fft(&domain.ifft(&coefficients).unwrap()), Ok(coefficients));
    }
}

#[test]
fn the_coset_transform_gives_the_values_on_the_coset() {
    let mut rng = StdRng::seed_from_u64(73);
    let n = 16;
    let domain = EvaluationDomain::new(n).unwrap();
    let coefficients = random_scalars(&mut rng, n);
    let values = domain.coset_fft(&coefficients).unwrap();
    let mut point = domain.generator;
    for k in 0..n {
        assert_eq!(values[k], evaluate(&coefficients, &point, n));
        point = point.mul(&domain.root);
    }
    assert_ne!(values, domain.fft(&coefficients).unwrap());
}

#[test]
fn transforms_refuse_other_lengths() {
    let domain = EvaluationDomain::new(4).unwrap();
    let three = vec![Fr::one(); 3];
    let eight = vec![Fr::one(); 8];
    assert_eq!(domain.fft(&three), Err(Error::InvalidInput));
    assert_eq!(domain.fft(&eight), Err(Error::InvalidInput));
    assert_eq!(domain.fft(&[]), Err(Error::InvalidInput));
    assert_eq!(domain.ifft(&three), Err(Error::InvalidInput));
    assert_eq!(domain.coset_fft(&eight), Err(Error::InvalidInput));
    let empty = EvaluationDomain::empty();
    assert_eq!(empty.fft(&[]), Err(Error::InvalidInput));
    assert_eq!(empty.ifft(&[]), Err(Error::InvalidInput));
    assert_eq!(empty.coset_fft(&[]), Err(Error::InvalidInput));
}

#[test]
fn the_queue_computes_transforms() {
    let mut rng = StdRng::seed_from_u64(74);
    let domain = EvaluationDomain::new(8).unwrap();
    let coefficients = random_scalars(&mut rng, 8);
    let mut store = PolynomialStore::new();
    let handle = store.put("f", Polynomial::from_coefficients(coefficients.clone()));
    let short = store.put("g", Polynomial::from_coefficients(vec![Fr::one(); 4]));
    let srs = ProverReferenceString::new(Vec::new());
    let mut state = PippengerRuntimeState::new(0);
    let item = |handle: usize, root: Fr, log_size: usize, tag: &str| WorkItem {
        work: Work::Fft { handle, root, log_size },
        tag: tag.to_string(),
    };
    let mut queue = WorkQueue::new();
    queue.add_to_queue(item(handle, domain.root, 3, "f_fft"));
    queue.add_to_queue(item(handle, domain.root_inverse, 3, "f_back"));
    assert!(queue.get_fft_result("f_fft").is_none());
    assert_eq!(queue.process_queue(&store, &srs, &mut state), Ok(()));
    assert_eq!(queue.pending(), 0);
    assert_eq!(
        queue.get_fft_result("f_fft").unwrap().coefficients,
        domain.fft(&coefficients).unwrap()
    );
    assert_eq!(
        queue.get_fft_result("f_back").unwrap().coefficients,
        fft(&coefficients, &domain.root_inverse, 3)
    );
    assert!(queue.get_result("f_fft").is_none());
    // what cannot be computed: another size, a root of another order, no
    // polynomial, a size beyond the field
    let four = EvaluationDomain::new(4).unwrap();
    for bad in [
        item(handle, domain.root, 2, "size"),
        item(short, domain.root, 2, "root"),
        item(handle, four.root, 3, "order"),
        item(handle, Fr::one(), 3, "one"),
        item(handle, Fr::zero(), 3, "zero"),
        item(7, domain.root, 3, "handle"),
        item(handle, domain.root, 29, "large"),
        item(handle, domain.root, usize::MAX, "huge"),
    ] {
        let tag = bad.tag.clone();
        let mut queue = WorkQueue::new();
        queue.add_to_queue(bad);
        assert_eq!(
            queue.process_queue(&store, &srs, &mut state),
            Err(Error::InvalidInput),
            "item {}",
            tag
        );
        assert_eq!(queue.pending(), 1);
    }
    let mut queue = WorkQueue::new();
    queue.add_to_queue(item(short, four.root, 2, "g_fft"));
    assert_eq!(queue.process_queue(&store, &srs, &mut state), Ok(()));
    assert_eq!(queue.get_fft_result("g_fft").unwrap().coefficients[0], Fr::from_u64(4));
}
