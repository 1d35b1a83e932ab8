//! The proving key of a circuit: its sizes, its polynomials, the domains on
//! which they live, and the reference string to commit against.

use crate::errors::Error;
use crate::evaluation_domain::{is_domain_size, EvaluationDomain};
use crate::pippenger::PippengerRuntimeState;
use crate::polynomial::Polynomial;
use crate::polynomial_store::PolynomialStore;
use crate::reference_string::ProverReferenceString;
use crate::settings::{polynomial_manifest, spec_polynomials, ComposerType, PolynomialManifest};
use vstd::arithmetic::power2::{lemma2_to64, lemma_pow2_strictly_increases, lemma_pow2_unfold, pow2};
use vstd::prelude::*;

verus! {

/// The number of parts into which the quotient polynomial is split.
pub const NUM_QUOTIENT_PARTS: usize = 4;

/// The largest circuit size: the large domain, four times the size, must
/// not exceed the largest subgroup of the field.
pub const MAX_CIRCUIT_SIZE: usize = 0x400_0000;

/// What a proving key is made from.
pub struct ProvingKeyData {
    pub composer_type: u32,
    pub circuit_size: u32,
    pub num_public_inputs: u32,
    pub contains_recursive_proof: bool,
    pub recursive_proof_public_input_indices: Vec<u32>,
    pub memory_read_records: Vec<u32>,
    pub memory_write_records: Vec<u32>,
    pub polynomial_store: PolynomialStore,
}

/// The proving key of a circuit.
pub struct ProvingKey {
    pub composer_type: u32,
    pub circuit_size: usize,
    pub log_circuit_size: usize,
    pub num_public_inputs: usize,
    pub contains_recursive_proof: bool,
    pub recursive_proof_public_input_indices: Vec<u32>,
    /// The rows that read from memory.
    pub memory_read_records: Vec<u32>,
    /// The rows that write to memory.
    pub memory_write_records: Vec<u32>,
    pub polynomial_store: PolynomialStore,
    /// The domain of the size of the circuit.
    pub small_domain: EvaluationDomain,
    /// The domain of four times the size of the circuit.
    pub large_domain: EvaluationDomain,
    pub reference_string: ProverReferenceString,
    /// The parts of the quotient polynomial: the first three have one
    /// coefficient more than the circuit has rows, for blinding.
    pub quotient_polynomial_parts: Vec<Polynomial>,
    pub pippenger_runtime_state: PippengerRuntimeState,
    pub polynomial_manifest: PolynomialManifest,
}

/// The least `k` with `n <= 2^k`.
pub open spec fn spec_log2_ceil(n: nat) -> nat
    decreases n,
{
    if n <= 1 {
        0
    } else {
        1 + spec_log2_ceil(((n + 1) / 2) as nat)
    }
}

/// The least `k` with `n <= 2^k`.
pub fn log2_ceil(n: usize) -> (k: usize)
    ensures
        k == spec_log2_ceil(n as nat),
{
    let mut rest = n;
    let mut k: usize = 0;
    while rest > 1
        invariant
            k + spec_log2_ceil(rest as nat) == spec_log2_ceil(n as nat),
            k + rest <= n + 1,
        decreases rest,
    {
        rest = rest / 2 + rest % 2;
        k = k + 1;
    }
    k
}

impl ProvingKey {
    /// The parts of the key fit together, and the composer type is one of
    /// the known kinds.
    pub open spec fn wf(&self) -> bool {
        &&& self.composer_type <= 2
        &&& self.polynomial_store.wf()
        &&& self.small_domain.wf()
        &&& self.large_domain.wf()
        &&& self.reference_string.wf()
        &&& self.circuit_size <= MAX_CIRCUIT_SIZE
        &&& self.small_domain.size == self.circuit_size
        &&& self.large_domain.size == 4 * self.circuit_size
        &&& self.log_circuit_size == spec_log2_ceil(self.circuit_size as nat)
        &&& self.quotient_polynomial_parts@.len() == NUM_QUOTIENT_PARTS
        &&& forall|i: int|
            0 <= i < NUM_QUOTIENT_PARTS ==> (#[trigger] self.quotient_polynomial_parts@[i]).wf()
    }

    /// The quotient parts are zero polynomials: the first three of one
    /// coefficient more than the circuit has rows, the last of as many.
    pub open spec fn quotient_parts_fresh(&self) -> bool {
        &&& self.quotient_polynomial_parts@.len() == NUM_QUOTIENT_PARTS
        &&& forall|i: int|
            0 <= i < 3 ==> (#[trigger] self.quotient_polynomial_parts@[i])@ == Seq::new(
                (self.circuit_size + 1) as nat,
                |k: int| 0int,
            )
        &&& self.quotient_polynomial_parts@[3]@ == Seq::new(
            self.circuit_size as nat,
            |k: int| 0int,
        )
    }

    /// Computes the tables of the two domains, unless the circuit is empty,
    /// and sets the quotient parts to zero polynomials of their sizes.
    pub fn init(&mut self)
        requires
            old(self).wf(),
        ensures
            final(self).wf(),
            final(self).quotient_parts_fresh(),
            final(self).circuit_size != 0 ==> final(self).small_domain.roots@.len()
                == final(self).circuit_size && final(self).large_domain.roots@.len() == 4
                * final(self).circuit_size,
            final(self).circuit_size == 0 ==> final(self).small_domain == old(self).small_domain
                && final(self).large_domain == old(self).large_domain,
            final(self).composer_type == old(self).composer_type,
            final(self).circuit_size == old(self).circuit_size,
            final(self).log_circuit_size == old(self).log_circuit_size,
            final(self).num_public_inputs == old(self).num_public_inputs,
            final(self).contains_recursive_proof == old(self).contains_recursive_proof,
            final(self).recursive_proof_public_input_indices == old(
                self,
            ).recursive_proof_public_input_indices,
            final(self).memory_read_records == old(self).memory_read_records,
            final(self).memory_write_records == old(self).memory_write_records,
            final(self).polynomial_store == old(self).polynomial_store,
            final(self).reference_string == old(self).reference_string,
            final(self).polynomial_manifest == old(self).polynomial_manifest,
            final(self).small_domain.root == old(self).small_domain.root,
            final(self).large_domain.root == old(self).large_domain.root,
    {
        if self.circuit_size != 0 {
            self.small_domain.compute_lookup_table();
            self.large_domain.compute_lookup_table();
        }
        let mut parts: Vec<Polynomial> = Vec::new();
        parts.push(Polynomial::new(self.circuit_size + 1));
        parts.push(Polynomial::new(self.circuit_size + 1));
        parts.push(Polynomial::new(self.circuit_size + 1));
        parts.push(Polynomial::new(self.circuit_size));
        self.quotient_polynomial_parts = parts;
    }

    /// The key for the given data and reference string. The circuit size
    /// must be zero or a power of two of at most `2^26`, and the composer
    /// type one of the known kinds.
    pub fn new_with_data(data: ProvingKeyData, crs: ProverReferenceString) -> (r: Result<
        ProvingKey,
        Error,
    >)
        requires
            data.polynomial_store.wf(),
            crs.wf(),
        ensures
            r is Ok <==> data.composer_type <= 2 && (data.circuit_size == 0 || (is_domain_size(
                data.circuit_size as int,
            ) && data.circuit_size <= MAX_CIRCUIT_SIZE)),
            r matches Err(e) ==> e == Error::InvalidInput,
            r matches Ok(key) ==> {
                &&& key.wf()
                &&& key.quotient_parts_fresh()
                &&& key.composer_type == data.composer_type
                &&& key.circuit_size == data.circuit_size
                &&& key.num_public_inputs == data.num_public_inputs
                &&& key.contains_recursive_proof == data.contains_recursive_proof
                &&& key.recursive_proof_public_input_indices
                    == data.recursive_proof_public_input_indices
                &&& key.memory_read_records == data.memory_read_records
                &&& key.memory_write_records == data.memory_write_records
                &&& key.polynomial_store == data.polynomial_store
                &&& key.reference_string == crs
                &&& key.circuit_size != 0 ==> key.small_domain.roots@.len() == key.circuit_size
                    && key.large_domain.roots@.len() == 4 * key.circuit_size
                &&& exists|t: ComposerType|
                    t.spec_code() == data.composer_type && key.polynomial_manifest@
                        == spec_polynomials(t)
            },
    {
        let composer = match ComposerType::from_code(data.composer_type) {
            Some(t) => t,
            None => {
                return Err(Error::InvalidInput);
            },
        };
        let circuit_size = data.circuit_size as usize;
        if circuit_size > MAX_CIRCUIT_SIZE {
            return Err(Error::InvalidInput);
        }
        let small_domain = match EvaluationDomain::new(circuit_size) {
            Ok(d) => d,
            Err(e) => {
                return Err(e);
            },
        };
        proof {
            lemma_four_times(circuit_size as int);
        }
        let large_domain = match EvaluationDomain::new(4 * circuit_size) {
            Ok(d) => d,
            Err(_) => {
                return Err(Error::InvalidInput);
            },
        };
        let mut parts: Vec<Polynomial> = Vec::new();
        parts.push(Polynomial::new(0));
        parts.push(Polynomial::new(0));
        parts.push(Polynomial::new(0));
        parts.push(Polynomial::new(0));
        let mut key = ProvingKey {
            composer_type: data.composer_type,
            circuit_size,
            log_circuit_size: log2_ceil(circuit_size),
            num_public_inputs: data.num_public_inputs as usize,
            contains_recursive_proof: data.contains_recursive_proof,
            recursive_proof_public_input_indices: data.recursive_proof_public_input_indices,
            memory_read_records: data.memory_read_records,
            memory_write_records: data.memory_write_records,
            polynomial_store: data.polynomial_store,
            small_domain,
            large_domain,
            reference_string: crs,
            quotient_polynomial_parts: parts,
            pippenger_runtime_state: PippengerRuntimeState::new(circuit_size),
            polynomial_manifest: polynomial_manifest(composer),
        };
        key.init();
        Ok(key)
    }

    /// The key of a circuit with `num_gates` gates and `num_inputs` public
    /// inputs, without polynomials. The sum of the two must be zero or a
    /// power of two of at most `2^26`.
    pub fn new(
        num_gates: usize,
        num_inputs: usize,
        crs: ProverReferenceString,
        type_: ComposerType,
    ) -> (r: Result<ProvingKey, Error>)
        requires
            crs.wf(),
        ensures
            r is Ok <==> num_gates + num_inputs == 0 || (is_domain_size(num_gates + num_inputs)
                && num_gates + num_inputs <= MAX_CIRCUIT_SIZE),
            r matches Err(e) ==> e == Error::InvalidInput,
            r matches Ok(key) ==> {
                &&& key.wf()
                &&& key.quotient_parts_fresh()
                &&& key.composer_type == type_.spec_code()
                &&& key.circuit_size == num_gates + num_inputs
                &&& key.num_public_inputs == num_inputs
                &&& !key.contains_recursive_proof
                &&& key.recursive_proof_public_input_indices@.len() == 0
                &&& key.memory_read_records@.len() == 0
                &&& key.memory_write_records@.len() == 0
                &&& key.polynomial_store.spec_len() == 0
                &&& key.reference_string == crs
                &&& key.polynomial_manifest@ == spec_polynomials(type_)
            },
    {
        if num_gates > MAX_CIRCUIT_SIZE || num_inputs > MAX_CIRCUIT_SIZE - num_gates {
            return Err(Error::InvalidInput);
        }
        let data = ProvingKeyData {
            composer_type: type_.code(),
            circuit_size: (num_gates + num_inputs) as u32,
            num_public_inputs: num_inputs as u32,
            contains_recursive_proof: false,
            recursive_proof_public_input_indices: Vec::new(),
            memory_read_records: Vec::new(),
            memory_write_records: Vec::new(),
            polynomial_store: PolynomialStore::new(),
        };
        match ProvingKey::new_with_data(data, crs) {
            Ok(mut key) => {
                key.init();
                Ok(key)
            },
            Err(e) => Err(e),
        }
    }
}

/// Four times a domain size of at most `2^26` is a domain size.
pub proof fn lemma_four_times(n: int)
    requires
        0 <= n <= MAX_CIRCUIT_SIZE,
    ensures
        is_domain_size(n) ==> is_domain_size(4 * n),
        n > 0 && is_domain_size(4 * n) ==> is_domain_size(n),
{
    lemma2_to64();
    if is_domain_size(n) {
        let k = choose|k: nat| k <= 28 && n == #[trigger] pow2(k);
        lemma_pow2_unfold(k + 1);
        lemma_pow2_unfold(k + 2);
        assert(pow2(26) == 0x400_0000);
        if k > 26 {
            lemma_pow2_strictly_increases(26, k);
        }
        assert(4 * n == pow2(k + 2));
    }
    if n > 0 && is_domain_size(4 * n) {
        let k = choose|k: nat| k <= 28 && 4 * n == #[trigger] pow2(k);
        if k < 2 {
            assert(pow2(0) == 1 && pow2(1) == 2);
        } else {
            lemma_pow2_unfold(k);
            lemma_pow2_unfold((k - 1) as nat);
            assert(n == pow2((k - 2) as nat));
        }
    }
}

impl Default for ProvingKey {
    /// The key of the empty circuit.
    fn default() -> (r: ProvingKey)
        ensures
            r.wf(),
            r.composer_type == 0,
            r.circuit_size == 0,
            r.log_circuit_size == 0,
            r.num_public_inputs == 0,
            !r.contains_recursive_proof,
            r.recursive_proof_public_input_indices@.len() == 0,
            r.memory_read_records@.len() == 0,
            r.memory_write_records@.len() == 0,
            r.polynomial_store.spec_len() == 0,
            r.reference_string.monomials@.len() == 0,
            r.polynomial_manifest@.len() == 0,
            forall|i: int| 0 <= i < NUM_QUOTIENT_PARTS ==> (#[trigger] r.quotient_polynomial_parts@[i])@.len() == 0,
    {
        let small_domain = EvaluationDomain::empty();
        let large_domain = EvaluationDomain::empty();
        let mut parts: Vec<Polynomial> = Vec::new();
        parts.push(Polynomial::new(0));
        parts.push(Polynomial::new(0));
        parts.push(Polynomial::new(0));
        parts.push(Polynomial::new(0));
        ProvingKey {
            composer_type: 0,
            circuit_size: 0,
            log_circuit_size: 0,
            num_public_inputs: 0,
            contains_recursive_proof: false,
            recursive_proof_public_input_indices: Vec::new(),
            memory_read_records: Vec::new(),
            memory_write_records: Vec::new(),
            polynomial_store: PolynomialStore::new(),
            small_domain,
            large_domain,
            reference_string: ProverReferenceString::new(Vec::new()),
            quotient_polynomial_parts: parts,
            pippenger_runtime_state: PippengerRuntimeState::new(0),
            polynomial_manifest: PolynomialManifest::empty(),
        }
    }
}

/// The size of a key's circuit, where it is not zero, is a domain size.
pub proof fn lemma_domain_size_of_key(key: &ProvingKey)
    requires
        key.wf(),
        key.circuit_size != 0,
    ensures
        is_domain_size(key.circuit_size as int),
{
    let k = key.small_domain.log2_size as nat;
    assert(key.small_domain.size == pow2(k));
}

} // verus!
