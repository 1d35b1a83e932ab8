//! What every verifier of the PLONK proof system offers.

use crate::manifest::Manifest;
use crate::plonk_verifier::{Proof, VerifierWidgets};
use crate::verification_key::VerificationKey;
use vstd::prelude::*;

verus! {

/// A verifier of the PLONK proof system.
pub trait VerifierBase: Sized {
    /// The relations of the circuits that the verifier is for.
    type Widgets: VerifierWidgets;

    /// Whether the parts of the verifier fit together.
    spec fn wf(&self) -> bool;

    /// Whether the verifier has a key whose commitments are all points of
    /// the curve other than the point at infinity.
    spec fn spec_commitments_valid(&self) -> bool;

    /// Whether the verifier holds a scalar for every commitment that it has
    /// accumulated, and a commitment for every scalar.
    spec fn spec_scalars_valid(&self) -> bool;

    /// Whether a proof of this length can be accepted.
    spec fn spec_proof_fits(&self, proof_data: Seq<u8>) -> bool;

    /// Whether the verifier comes to accept the proof for something that
    /// the relations of the circuit may answer in the course of the
    /// verification.
    spec fn spec_may_accept(&self, proof_data: Seq<u8>) -> bool;

    /// A verifier for a key and a manifest.
    fn new(verifier_key: Option<VerificationKey>, manifest: Manifest, widgets: Self::Widgets) -> (r:
        Self)
        requires
            verifier_key matches Some(k) ==> k.wf(),
        ensures
            r.wf(),
    ;

    /// Whether the verifier has a key whose commitments are all points of
    /// the curve other than the point at infinity.
    fn validate_commitments(&self) -> (r: bool)
        requires
            self.wf(),
        ensures
            r == self.spec_commitments_valid(),
    ;

    /// Whether the verifier holds a scalar for every commitment that it has
    /// accumulated, and a commitment for every scalar.
    fn validate_scalars(&self) -> (r: bool)
        requires
            self.wf(),
        ensures
            r == self.spec_scalars_valid(),
    ;

    /// Whether the verifier accepts a proof. The relations have their say:
    /// a proof is accepted only where it has the right length and the
    /// verification comes to accept it for what they may answer.
    fn verify_proof(&self, proof: &Proof) -> (r: bool)
        requires
            self.wf(),
        ensures
            r ==> self.spec_proof_fits(proof.proof_data@),
            r ==> self.spec_may_accept(proof.proof_data@),
    ;
}

} // verus!
