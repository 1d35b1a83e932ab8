//! The verification key of a circuit: its sizes, the commitments to its
//! fixed polynomials, and the verifier's part of the reference string.

use crate::errors::Error;
use crate::evaluation_domain::{is_domain_size, EvaluationDomain};
use crate::group::G1Affine;
use crate::label_map::LabelMap;
use crate::proving_key::{log2_ceil, spec_log2_ceil, MAX_CIRCUIT_SIZE};
use crate::reference_string::VerifierMemReferenceString;
use crate::settings::{polynomial_manifest, spec_polynomials, ComposerType, PolynomialManifest};
use vstd::prelude::*;

verus! {

/// The verification key of a circuit.
pub struct VerificationKey {
    pub composer_type: u32,
    pub circuit_size: usize,
    pub log_circuit_size: usize,
    pub num_public_inputs: usize,
    /// The domain of the size of the circuit.
    pub domain: EvaluationDomain,
    pub reference_string: VerifierMemReferenceString,
    /// The commitments to the selectors and permutations, by label.
    pub commitments: LabelMap<G1Affine>,
    pub polynomial_manifest: PolynomialManifest,
    pub contains_recursive_proof: bool,
    /// The public inputs that hold the limbs of the two points of a proof
    /// that the circuit verifies.
    pub recursive_proof_public_input_indices: Vec<u32>,
    /// The number of wires of a gate, set by the verifier.
    pub program_width: usize,
}

impl VerificationKey {
    /// The parts of the key fit together.
    pub open spec fn wf(&self) -> bool {
        &&& self.domain.wf()
        &&& self.domain.size == self.circuit_size
        &&& 0 < self.circuit_size <= MAX_CIRCUIT_SIZE
        &&& self.log_circuit_size == spec_log2_ceil(self.circuit_size as nat)
        &&& self.reference_string.wf()
        &&& self.polynomial_manifest@.len() <= 0xffff
        &&& self.commitments.wf()
        &&& forall|i: int|
            0 <= i < self.commitments.values@.len() ==> (#[trigger] self.commitments.values@[i]).wf()
    }

    /// The key of a circuit without commitments. The circuit size must be a
    /// power of two of at most `2^26`, and the composer type one of the
    /// known kinds.
    pub fn new(
        circuit_size: usize,
        num_public_inputs: usize,
        crs: VerifierMemReferenceString,
        composer_type: u32,
    ) -> (r: Result<VerificationKey, Error>)
        requires
            crs.wf(),
        ensures
            r is Ok <==> composer_type <= 2 && is_domain_size(circuit_size as int) && circuit_size
                <= MAX_CIRCUIT_SIZE,
            r matches Err(e) ==> e == Error::InvalidInput,
            r matches Ok(key) ==> {
                &&& key.wf()
                &&& key.composer_type == composer_type
                &&& key.circuit_size == circuit_size
                &&& key.num_public_inputs == num_public_inputs
                &&& key.reference_string == crs
                &&& key.commitments@ == Map::<Seq<char>, G1Affine>::empty()
                &&& !key.contains_recursive_proof
                &&& key.recursive_proof_public_input_indices@.len() == 0
                &&& key.program_width == 0
                &&& exists|t: ComposerType|
                    t.spec_code() == composer_type && key.polynomial_manifest@ == spec_polynomials(
                        t,
                    )
            },
    {
        let composer = match ComposerType::from_code(composer_type) {
            Some(t) => t,
            None => {
                return Err(Error::InvalidInput);
            },
        };
        if circuit_size == 0 || circuit_size > MAX_CIRCUIT_SIZE {
            proof {
                vstd::arithmetic::power2::lemma_pow2_pos(0);
                assert forall|k: nat| k <= 28 implies 0 != #[trigger] vstd::arithmetic::power2::pow2(
                    k,
                ) by {
                    vstd::arithmetic::power2::lemma_pow2_pos(k);
                }
            }
            return Err(Error::InvalidInput);
        }
        let domain = match EvaluationDomain::new(circuit_size) {
            Ok(d) => d,
            Err(e) => {
                return Err(e);
            },
        };
        Ok(
            VerificationKey {
                composer_type,
                circuit_size,
                log_circuit_size: log2_ceil(circuit_size),
                num_public_inputs,
                domain,
                reference_string: crs,
                commitments: LabelMap::new(),
                polynomial_manifest: polynomial_manifest(composer),
                contains_recursive_proof: false,
                recursive_proof_public_input_indices: Vec::new(),
                program_width: 0,
            },
        )
    }

    /// A copy of the key.
    pub fn duplicate(&self) -> (r: VerificationKey)
        requires
            self.wf(),
        ensures
            r.wf(),
            r.composer_type == self.composer_type,
            r.circuit_size == self.circuit_size,
            r.log_circuit_size == self.log_circuit_size,
            r.num_public_inputs == self.num_public_inputs,
            r.domain.root == self.domain.root,
            r.reference_string.g2_x == self.reference_string.g2_x,
            r.commitments@ == self.commitments@,
            r.commitments.keys@ == self.commitments.keys@,
            r.commitments.values@ == self.commitments.values@,
            r.polynomial_manifest@ == self.polynomial_manifest@,
            r.contains_recursive_proof == self.contains_recursive_proof,
            r.recursive_proof_public_input_indices@ == self.recursive_proof_public_input_indices@,
            r.program_width == self.program_width,
    {
        VerificationKey {
            composer_type: self.composer_type,
            circuit_size: self.circuit_size,
            log_circuit_size: self.log_circuit_size,
            num_public_inputs: self.num_public_inputs,
            domain: self.domain.duplicate(),
            reference_string: VerifierMemReferenceString { g2_x: self.reference_string.g2_x },
            commitments: self.commitments.duplicate(),
            polynomial_manifest: self.polynomial_manifest.duplicate(),
            contains_recursive_proof: self.contains_recursive_proof,
            recursive_proof_public_input_indices: vstd::slice::slice_to_vec(
                self.recursive_proof_public_input_indices.as_slice(),
            ),
            program_width: self.program_width,
        }
    }
}

} // verus!
