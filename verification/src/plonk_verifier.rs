//! The verifier: from a proof and a verification key to a verdict, in five
//! steps, between which the relations of the circuit have their say.

use crate::batch::{batch_verify_spec, BatchState};
use crate::bytes::{fr_to_bytes, spec_bytes32, spec_u32_bytes, u32_to_be_bytes};
use crate::commitment_scheme::{
    accumulators_view,
    points_map_wf,
    scalars_map_wf,
    scalars_view,
    KateCommitmentScheme,
};
use crate::errors::{Error, RejectReason, Verdict};
use crate::evaluation_domain::{
    spec_first_divisor,
    spec_last_divisor,
    spec_vanishing,
    LagrangeEvaluations,
};
use crate::field::{fr_modulus, inv_mod, mul_mod, Fr};
use crate::group::{
    g1_add,
    g1_mul,
    g1_neg,
    pairing_check,
    pairing_product_is_one,
    G1Affine,
    G1Point,
    G2Point,
};
use crate::label_map::LabelMap;
use crate::manifest::Manifest;
use crate::group_laws::{all_valid, g1_laws};
use crate::msm::{msm, points_view};
use crate::pippenger::{pippenger, pippenger_sum, PippengerRuntimeState};
use crate::polynomial::{all_wf, fr_values};
use crate::protocol::{read_challenge, read_point, tv_challenge, tv_point};
use crate::recursion::{
    indices_in_range,
    recover_points,
    spec_recovered_points,
    NUM_RECURSION_INDICES,
};
use crate::polynomial_store::PolynomialStore;
use crate::proving_key::ProvingKey;
use crate::reference_string::{all_points_wf, VerifierMemReferenceString};
use crate::settings::{spec_manifest, spec_polynomials, ComposerType, PolynomialSource};
use crate::transcript::{
    lemma_parse_entries_fails,
    lemma_parse_rounds_fails,
    parse_entries,
    spec_scalar_vector,
    ProofParse,
};
use crate::work_queue::results_view;
use crate::settings::Settings;
use crate::transcript::{
    fiat_shamir_failure,
    fiat_shamir_next,
    parse_rounds,
    Transcript,
    TranscriptState,
};
use crate::verification_key::VerificationKey;
use vstd::prelude::*;

pub mod proof_system;

verus! {

/// A proof: the elements that the prover supplies, one behind the other in
/// the order of the manifest.
pub struct Proof {
    pub proof_data: Vec<u8>,
}

impl Proof {
    /// The proof with the given bytes.
    pub fn new(proof_data: Vec<u8>) -> (r: Proof)
        ensures
            r.proof_data == proof_data,
    {
        Proof { proof_data }
    }
}

impl Default for Proof {
    /// The proof without bytes.
    fn default() -> (r: Proof)
        ensures
            r.proof_data@.len() == 0,
    {
        Proof { proof_data: Vec::new() }
    }
}

/// How a step of the verifier ends: with what the next step needs, or with
/// the rejection of the proof.
pub enum Step<T> {
    Continue(T),
    Reject(RejectReason),
}

/// The state of a transcript after the challenges of the first `k` of the
/// given rounds were derived, or the first failure.
pub open spec fn challenge_rounds(s: TranscriptState, names: Seq<Seq<char>>, k: nat) -> Result<
    TranscriptState,
    Error,
>
    decreases k,
{
    if k == 0 {
        Ok(s)
    } else {
        match challenge_rounds(s, names, (k - 1) as nat) {
            Err(e) => Err(e),
            Ok(t) => match fiat_shamir_failure(t, names[k - 1]) {
                Some(e) => Err(e),
                None => Ok(fiat_shamir_next(t, names[k - 1])),
            },
        }
    }
}

/// The rounds whose challenges come before the quotient is evaluated.
pub open spec fn first_rounds() -> Seq<Seq<char>> {
    seq!["init"@, "eta"@, "beta"@, "alpha"@, "z"@]
}

/// The rounds whose challenges come after the quotient was evaluated.
pub open spec fn last_rounds() -> Seq<Seq<char>> {
    seq!["nu"@, "separator"@]
}

/// The state of the transcript of a proof before any challenge: the
/// elements of the proof and the two sizes of the circuit.
pub open spec fn initial_state(
    manifest: Seq<(Seq<char>, nat, Seq<(Seq<char>, nat, bool)>)>,
    settings: Settings,
    proof_data: Seq<u8>,
    circuit_size: u32,
    num_public_inputs: u32,
) -> TranscriptState {
    TranscriptState {
        manifest,
        hash_type: settings.spec_hash_type(),
        num_challenge_bytes: settings.spec_num_challenge_bytes(),
        elements: parse_rounds(manifest, proof_data, manifest.len()).elements.insert(
            "circuit_size"@,
            spec_u32_bytes(circuit_size),
        ).insert("public_input_size"@, spec_u32_bytes(num_public_inputs)),
        challenges: Map::empty(),
        current_round: 0,
        current_challenge: Seq::empty(),
    }
}

/// Whether a proof has exactly the bytes that the manifest asks of the
/// prover.
pub open spec fn proof_fits(
    manifest: Seq<(Seq<char>, nat, Seq<(Seq<char>, nat, bool)>)>,
    proof_data: Seq<u8>,
) -> bool {
    let parsed = parse_rounds(manifest, proof_data, manifest.len());
    parsed.complete && parsed.offset == proof_data.len()
}

/// The first step: reads the proof into a transcript, adds the sizes of the
/// circuit, and derives the challenges of the rounds `init`, `eta`, `beta`,
/// `alpha` and `z`. A proof of the wrong length is rejected; a manifest
/// that does not have these rounds is an error.
pub fn derive_challenges(
    key: &VerificationKey,
    manifest: &Manifest,
    settings: Settings,
    proof: &Proof,
) -> (r: Result<Step<Transcript>, Error>)
    requires
        key.wf(),
    ensures
        !proof_fits(manifest@, proof.proof_data@) ==> r matches Ok(
            Step::Reject(RejectReason::MissingChallenge),
        ),
        proof_fits(manifest@, proof.proof_data@) ==> ({
            let start = initial_state(
                manifest@,
                settings,
                proof.proof_data@,
                key.circuit_size as u32,
                key.num_public_inputs as u32,
            );
            match challenge_rounds(start, first_rounds(), 5) {
                Err(e) => r == Err::<Step<Transcript>, Error>(e),
                Ok(s) => r matches Ok(Step::Continue(t)) && t.wf() && t@ == s,
            }
        }),
{
    let mut transcript = match Transcript::from_proof(
        proof.proof_data.as_slice(),
        manifest.duplicate(),
        settings.hash_type(),
        settings.num_challenge_bytes(),
    ) {
        Ok(t) => t,
        Err(_) => {
            return Ok(Step::Reject(RejectReason::MissingChallenge));
        },
    };
    transcript.add_element("circuit_size", u32_to_be_bytes(key.circuit_size as u32));
    transcript.add_element("public_input_size", u32_to_be_bytes(key.num_public_inputs as u32));
    let ghost start = transcript@;
    proof {
        assert(start.elements =~= initial_state(
            manifest@,
            settings,
            proof.proof_data@,
            key.circuit_size as u32,
            key.num_public_inputs as u32,
        ).elements);
    }
    match apply_rounds_first(&mut transcript) {
        Ok(()) => Ok(Step::Continue(transcript)),
        Err(e) => Err(e),
    }
}

/// Derives the challenges of the rounds `init`, `eta`, `beta`, `alpha` and
/// `z`.
fn apply_rounds_first(transcript: &mut Transcript) -> (r: Result<(), Error>)
    requires
        old(transcript).wf(),
    ensures
        final(transcript).wf(),
        match challenge_rounds(old(transcript)@, first_rounds(), 5) {
            Err(e) => r == Err::<(), Error>(e),
            Ok(s) => r is Ok && final(transcript)@ == s,
        },
{
    let ghost names = first_rounds();
    let ghost start = transcript@;
    proof {
        assert(challenge_rounds(start, names, 0) == Ok::<TranscriptState, Error>(start));
    }
    match transcript.apply_fiat_shamir("init") {
        Ok(()) => {},
        Err(e) => {
            proof {
                lemma_challenge_rounds_stays(start, names, 1, 5);
            }
            return Err(e);
        },
    }
    match transcript.apply_fiat_shamir("eta") {
        Ok(()) => {},
        Err(e) => {
            proof {
                lemma_challenge_rounds_stays(start, names, 2, 5);
            }
            return Err(e);
        },
    }
    match transcript.apply_fiat_shamir("beta") {
        Ok(()) => {},
        Err(e) => {
            proof {
                lemma_challenge_rounds_stays(start, names, 3, 5);
            }
            return Err(e);
        },
    }
    match transcript.apply_fiat_shamir("alpha") {
        Ok(()) => {},
        Err(e) => {
            proof {
                lemma_challenge_rounds_stays(start, names, 4, 5);
            }
            return Err(e);
        },
    }
    match transcript.apply_fiat_shamir("z") {
        Ok(()) => {},
        Err(e) => {
            return Err(e);
        },
    }
    Ok(())
}

/// Later rounds change nothing about the first failure.
pub proof fn lemma_challenge_rounds_stays(s: TranscriptState, names: Seq<Seq<char>>, k: nat, n: nat)
    requires
        k <= n,
        challenge_rounds(s, names, k) is Err,
    ensures
        challenge_rounds(s, names, n) == challenge_rounds(s, names, k),
    decreases n,
{
    if k < n {
        lemma_challenge_rounds_stays(s, names, k, (n - 1) as nat);
    }
}

/// Deriving challenges changes no element of a transcript.
pub proof fn lemma_challenge_rounds_keep_elements(s: TranscriptState, names: Seq<Seq<char>>, k: nat)
    ensures
        challenge_rounds(s, names, k) matches Ok(t) ==> t.elements == s.elements,
    decreases k,
{
    if k > 0 {
        lemma_challenge_rounds_keep_elements(s, names, (k - 1) as nat);
    }
}

/// The two challenges that the relations are evaluated with, and the
/// values at the second of the vanishing polynomial and of the first and
/// last Lagrange polynomials of the circuit's domain.
pub struct ChallengePoint {
    pub alpha: Fr,
    pub zeta: Fr,
    pub lagrange: LagrangeEvaluations,
}

impl ChallengePoint {
    /// Every scalar is canonical.
    pub open spec fn wf(&self) -> bool {
        &&& self.alpha.wf()
        &&& self.zeta.wf()
        &&& self.lagrange.vanishing_poly.wf()
        &&& self.lagrange.l_start.wf()
        &&& self.lagrange.l_end.wf()
    }
}

/// The second step: reads the challenges `alpha` and `z` and evaluates the
/// vanishing polynomial and the first and last Lagrange polynomials at `z`
/// in closed form. A `z` at which these have no value is rejected.
pub fn evaluate_lagrange(transcript: &Transcript, key: &VerificationKey) -> (r: Result<
    Step<ChallengePoint>,
    Error,
>)
    requires
        transcript.wf(),
        key.wf(),
    ensures
        match (tv_challenge(transcript@, "alpha"@, 0), tv_challenge(transcript@, "z"@, 0)) {
            (Ok(alpha), Ok(zeta)) => {
                let n = key.circuit_size as int;
                let p = fr_modulus();
                if spec_first_divisor(n, zeta) == 0 || spec_last_divisor(n, key.domain.root@, zeta)
                    == 0 {
                    r matches Ok(Step::Reject(RejectReason::InvalidPoint))
                } else {
                    r matches Ok(Step::Continue(c)) && c.wf() && c.alpha@ == alpha && c.zeta@ == zeta
                        && c.lagrange.vanishing_poly@ == spec_vanishing(n, zeta)
                        && c.lagrange.l_start@ == mul_mod(
                        spec_vanishing(n, zeta),
                        inv_mod(spec_first_divisor(n, zeta), p),
                        p,
                    ) && c.lagrange.l_end@ == mul_mod(
                        spec_vanishing(n, zeta),
                        inv_mod(spec_last_divisor(n, key.domain.root@, zeta), p),
                        p,
                    )
                }
            },
            _ => r == Err::<Step<ChallengePoint>, Error>(Error::ProtocolError),
        },
{
    let alpha = match read_challenge(transcript, "alpha", 0) {
        Ok(v) => v,
        Err(e) => {
            return Err(e);
        },
    };
    let zeta = match read_challenge(transcript, "z", 0) {
        Ok(v) => v,
        Err(e) => {
            return Err(e);
        },
    };
    match key.domain.get_lagrange_evaluations(&zeta) {
        Some(lagrange) => Ok(Step::Continue(ChallengePoint { alpha, zeta, lagrange })),
        None => Ok(Step::Reject(RejectReason::InvalidPoint)),
    }
}

/// The state of a transcript after the value of the quotient was added and
/// the challenges of the rounds `nu` and `separator` were derived: with the
/// numerator and the value of the vanishing polynomial, the quotient has
/// the value `numerator / vanishing`. Nothing where the vanishing
/// polynomial is zero.
pub open spec fn quotient_rounds(s: TranscriptState, numerator: int, vanishing: int) -> Option<
    Result<TranscriptState, Error>,
> {
    let p = fr_modulus();
    if vanishing == 0 {
        None
    } else {
        let t = mul_mod(numerator, inv_mod(vanishing, p), p);
        Some(
            challenge_rounds(
                TranscriptState { elements: s.elements.insert("t"@, spec_bytes32(t)), ..s },
                last_rounds(),
                2,
            ),
        )
    }
}

/// The third step: divides the numerator that the relations give by
/// the value of the vanishing polynomial, adds the quotient to the
/// transcript as element `t`, and derives the challenges of the rounds `nu`
/// and `separator`. A vanishing polynomial of value zero rejects the proof.
pub fn evaluate_quotient(transcript: &mut Transcript, numerator: &Fr, vanishing: &Fr) -> (r: Result<
    Step<()>,
    Error,
>)
    requires
        old(transcript).wf(),
        numerator.wf(),
        vanishing.wf(),
    ensures
        final(transcript).wf(),
        match quotient_rounds(old(transcript)@, numerator@, vanishing@) {
            None => r matches Ok(Step::Reject(RejectReason::InvalidPoint)),
            Some(Err(e)) => r == Err::<Step<()>, Error>(e),
            Some(Ok(s)) => r matches Ok(Step::Continue(_)) && final(transcript)@ == s,
        },
{
    let inverse = match vanishing.inverse() {
        Some(v) => v,
        None => {
            return Ok(Step::Reject(RejectReason::InvalidPoint));
        },
    };
    let t = numerator.mul(&inverse);
    transcript.add_element("t", fr_to_bytes(&t));
    let ghost start = transcript@;
    let ghost names = last_rounds();
    proof {
        assert(challenge_rounds(start, names, 0) == Ok::<TranscriptState, Error>(start));
    }
    match transcript.apply_fiat_shamir("nu") {
        Ok(()) => {},
        Err(e) => {
            proof {
                lemma_challenge_rounds_stays(start, names, 1, 2);
            }
            return Err(e);
        },
    }
    match transcript.apply_fiat_shamir("separator") {
        Ok(()) => {},
        Err(e) => {
            return Err(e);
        },
    }
    Ok(Step::Continue(()))
}

/// The accumulators that the fourth step fills.
pub struct Accumulators {
    pub kate_g1_elements: LabelMap<G1Affine>,
    pub kate_fr_elements: LabelMap<Fr>,
}

impl Accumulators {
    /// Labels are unique and every value is canonical.
    pub open spec fn wf(&self) -> bool {
        points_map_wf(self.kate_g1_elements) && scalars_map_wf(self.kate_fr_elements)
    }

    /// The accumulators without entries.
    pub fn new() -> (r: Accumulators)
        ensures
            r.wf(),
            r.kate_g1_elements@ == Map::<Seq<char>, G1Affine>::empty(),
            r.kate_fr_elements@ == Map::<Seq<char>, Fr>::empty(),
    {
        Accumulators { kate_g1_elements: LabelMap::new(), kate_fr_elements: LabelMap::new() }
    }
}

/// The accumulators without entries, as plain values.
pub open spec fn empty_batch() -> BatchState {
    BatchState { points: Map::empty(), scalars: Map::empty(), batch_eval: 0, shifted: 0 }
}

/// The fourth step: the commitment scheme fills the accumulators with the
/// commitments and the scalars that belong to them. An element of the
/// proof that spells no point of the curve or no scalar rejects the proof;
/// an element that is missing is an error.
pub fn batch_commitments(
    transcript: &Transcript,
    key: &VerificationKey,
    scheme: &KateCommitmentScheme,
) -> (r: Result<Step<Accumulators>, Error>)
    requires
        transcript.wf(),
        key.wf(),
    ensures
        match batch_verify_spec(
            transcript@,
            results_view(key.commitments@),
            key.polynomial_manifest@,
            key.circuit_size as nat,
            key.program_width as nat,
            key.domain.root@,
            empty_batch(),
        ) {
            Err(Error::InvalidProof) => r matches Ok(Step::Reject(RejectReason::InvalidPoint)),
            Err(e) => r == Err::<Step<Accumulators>, Error>(e),
            Ok(s) => r matches Ok(Step::Continue(a)) && a.wf() && results_view(a.kate_g1_elements@)
                == s.points && scalars_view(a.kate_fr_elements@) == s.scalars,
        },
{
    let mut accumulators = Accumulators::new();
    proof {
        assert(accumulators_view(
            accumulators.kate_g1_elements,
            accumulators.kate_fr_elements,
            0,
            0,
        ) =~= empty_batch()) by {
            assert(results_view(accumulators.kate_g1_elements@) =~= Map::empty());
            assert(scalars_view(accumulators.kate_fr_elements@) =~= Map::empty());
        }
    }
    match scheme.batch_verify(
        transcript,
        &mut accumulators.kate_g1_elements,
        &mut accumulators.kate_fr_elements,
        key,
    ) {
        Ok(()) => Ok(Step::Continue(accumulators)),
        Err(Error::InvalidProof) => Ok(Step::Reject(RejectReason::InvalidPoint)),
        Err(e) => Err(e),
    }
}

/// The scalars and points that go into the sum of the verifier, from the
/// first `k` commitments of the accumulators in the order in which they
/// went in: a commitment counts where it is a point of the curve other
/// than the point at infinity and has a scalar.
pub open spec fn msm_inputs(
    keys: Seq<String>,
    values: Seq<G1Affine>,
    scalars: Map<Seq<char>, Fr>,
    k: nat,
) -> (Seq<int>, Seq<G1Point>)
    decreases k,
{
    if k == 0 {
        (Seq::empty(), Seq::empty())
    } else {
        let before = msm_inputs(keys, values, scalars, (k - 1) as nat);
        let point = values[k - 1]@;
        let label = keys[k - 1]@;
        if point.on_curve() && !point.infinity && scalars.contains_key(label) {
            (before.0.push(scalars[label]@), before.1.push(point))
        } else {
            before
        }
    }
}

/// The scalars and points that go into the sum of the verifier.
pub fn collect_inputs(accumulators: &Accumulators) -> (r: (Vec<Fr>, Vec<G1Affine>))
    requires
        accumulators.wf(),
    ensures
        all_wf(r.0@),
        all_points_wf(r.1@),
        r.0@.len() == r.1@.len(),
        (fr_values(r.0@), points_view(r.1@)) == msm_inputs(
            accumulators.kate_g1_elements.keys@,
            accumulators.kate_g1_elements.values@,
            accumulators.kate_fr_elements@,
            accumulators.kate_g1_elements.keys@.len(),
        ),
{
    let points = &accumulators.kate_g1_elements;
    let mut scalars: Vec<Fr> = Vec::new();
    let mut elements: Vec<G1Affine> = Vec::new();
    let mut i: usize = 0;
    while i < points.keys.len()
        invariant
            i <= points.keys@.len(),
            accumulators.wf(),
            points == &accumulators.kate_g1_elements,
            all_wf(scalars@),
            all_points_wf(elements@),
            scalars@.len() == elements@.len(),
            (fr_values(scalars@), points_view(elements@)) == msm_inputs(
                points.keys@,
                points.values@,
                accumulators.kate_fr_elements@,
                i as nat,
            ),
        decreases points.keys@.len() - i,
    {
        let element = points.values[i];
        if element.on_curve() && !element.is_point_at_infinity() {
            match accumulators.kate_fr_elements.find(points.keys[i].as_str()) {
                Some(h) => {
                    let scalar = accumulators.kate_fr_elements.values[h];
                    let ghost before_scalars = scalars@;
                    let ghost before_elements = elements@;
                    scalars.push(scalar);
                    elements.push(element);
                    proof {
                        assert(fr_values(scalars@) =~= fr_values(before_scalars).push(scalar@));
                        assert(points_view(elements@) =~= points_view(before_elements).push(
                            element@,
                        ));
                    }
                },
                None => {},
            }
        }
        i = i + 1;
    }
    (scalars, elements)
}

/// The point that is paired with the secret's multiple of the generator of
/// the second group: minus the sum of `PI_Z` and `separator * PI_Z_OMEGA`.
pub open spec fn right_point(separator: int, pi_z: G1Point, pi_z_omega: G1Point) -> G1Point {
    g1_neg(g1_add(g1_mul(separator, pi_z_omega), pi_z))
}

/// What the public inputs say of a verified inner proof.
pub enum RecursionPoints {
    /// The circuit verifies no proof.
    Absent,
    /// The two points of the inner proof.
    Present(G1Affine, G1Affine),
    /// The public inputs spell no scalars, or the limbs no points of the
    /// curve.
    Invalid,
}

/// What the public inputs say of a verified inner proof, as plain values.
pub enum RecursionState {
    Absent,
    Present(G1Point, G1Point),
    Invalid,
}

/// What the public inputs of a transcript say of a verified inner proof.
/// Where the key names other than sixteen public inputs, or one that is
/// not there, that is an error.
pub open spec fn spec_recursion(tv: TranscriptState, contains: bool, indices: Seq<u32>) -> Result<
    RecursionState,
    Error,
> {
    if !contains {
        Ok(RecursionState::Absent)
    } else if indices.len() != NUM_RECURSION_INDICES {
        Err(Error::InvalidInput)
    } else if !tv.elements.contains_key("public_inputs"@) {
        Err(Error::ProtocolError)
    } else {
        match spec_scalar_vector(tv.elements["public_inputs"@]) {
            None => Ok(RecursionState::Invalid),
            Some(inputs) => if !indices_in_range(indices, inputs.len() as int) {
                Err(Error::InvalidInput)
            } else {
                let (r0, r1) = spec_recovered_points(inputs, indices);
                if r0.on_curve() && r1.on_curve() {
                    Ok(RecursionState::Present(r0, r1))
                } else {
                    Ok(RecursionState::Invalid)
                }
            },
        }
    }
}

impl RecursionPoints {
    /// The points as plain values.
    pub open spec fn state(self) -> RecursionState {
        match self {
            RecursionPoints::Absent => RecursionState::Absent,
            RecursionPoints::Present(a, b) => RecursionState::Present(a@, b@),
            RecursionPoints::Invalid => RecursionState::Invalid,
        }
    }

    /// The points have canonical coordinates.
    pub open spec fn wf(self) -> bool {
        match self {
            RecursionPoints::Present(a, b) => a.wf() && b.wf(),
            _ => true,
        }
    }
}

/// Reads from the public inputs the two points of a verified inner proof,
/// where the key says that the circuit verifies one.
pub fn recover_recursion_points(transcript: &Transcript, key: &VerificationKey) -> (r: Result<
    RecursionPoints,
    Error,
>)
    requires
        transcript.wf(),
        key.wf(),
    ensures
        r matches Ok(v) ==> v.wf() && Ok::<RecursionState, Error>(v.state()) == spec_recursion(
            transcript@,
            key.contains_recursive_proof,
            key.recursive_proof_public_input_indices@,
        ),
        r matches Err(e) ==> Err::<RecursionState, Error>(e) == spec_recursion(
            transcript@,
            key.contains_recursive_proof,
            key.recursive_proof_public_input_indices@,
        ),
{
    if !key.contains_recursive_proof {
        return Ok(RecursionPoints::Absent);
    }
    let indices = &key.recursive_proof_public_input_indices;
    if indices.len() != NUM_RECURSION_INDICES {
        return Err(Error::InvalidInput);
    }
    let inputs = match transcript.get_field_element_vector("public_inputs") {
        Ok(v) => v,
        Err(Error::MissingElement) => {
            return Err(Error::ProtocolError);
        },
        Err(_) => {
            return Ok(RecursionPoints::Invalid);
        },
    };
    let mut k: usize = 0;
    while k < NUM_RECURSION_INDICES
        invariant
            k <= NUM_RECURSION_INDICES,
            indices@.len() == NUM_RECURSION_INDICES,
            key.contains_recursive_proof,
            indices == &key.recursive_proof_public_input_indices,
            all_wf(inputs@),
            transcript@.elements.contains_key("public_inputs"@),
            Some(fr_values(inputs@)) == spec_scalar_vector(transcript@.elements["public_inputs"@]),
            forall|j: int| 0 <= j < k ==> (#[trigger] indices@[j]) < inputs@.len(),
        decreases NUM_RECURSION_INDICES - k,
    {
        if indices[k] as usize >= inputs.len() {
            proof {
                assert(!(indices@[k as int] < fr_values(inputs@).len()));
            }
            return Err(Error::InvalidInput);
        }
        k = k + 1;
    }
    let (r0, r1) = recover_points(&inputs, indices);
    if r0.on_curve() && r1.on_curve() {
        Ok(RecursionPoints::Present(r0, r1))
    } else {
        Ok(RecursionPoints::Invalid)
    }
}

/// The verdict on two points: the proof is accepted exactly where the
/// product of the pairing of the first with the generator of the second
/// group and of the second with the secret's multiple of it is one.
pub open spec fn pairing_verdict(p0: G1Point, p1: G1Point, g2x: G2Point) -> Verdict {
    if pairing_product_is_one(p0, p1, g2x) {
        Verdict::Accept
    } else {
        Verdict::Reject(RejectReason::PairingMismatch)
    }
}

/// The verdict that a transcript, the accumulators and a key come to. The
/// opening proofs `PI_Z` and `PI_Z_OMEGA` must be points of the curve; the
/// left point is the bucket-method sum of the accumulated commitments times
/// their scalars, the right point minus the combined opening proofs; where
/// the circuit verifies an inner proof, its two points, multiplied by the
/// square of the separator, are added to the two.
pub open spec fn spec_final_check(
    tv: TranscriptState,
    keys: Seq<String>,
    values: Seq<G1Affine>,
    scalars: Map<Seq<char>, Fr>,
    contains: bool,
    indices: Seq<u32>,
    g2x: G2Point,
) -> Result<Verdict, Error> {
    match tv_point(tv, "PI_Z"@) {
        Err(Error::InvalidProof) => Ok(Verdict::Reject(RejectReason::InvalidPoint)),
        Err(e) => Err(e),
        Ok(pi_z) => match tv_point(tv, "PI_Z_OMEGA"@) {
            Err(Error::InvalidProof) => Ok(Verdict::Reject(RejectReason::InvalidPoint)),
            Err(e) => Err(e),
            Ok(pi_z_omega) => match tv_challenge(tv, "separator"@, 0) {
                Err(e) => Err(e),
                Ok(separator) => {
                    let inputs = msm_inputs(keys, values, scalars, keys.len());
                    let p0 = pippenger_sum(inputs.0, inputs.1);
                    let p1 = right_point(separator, pi_z, pi_z_omega);
                    match spec_recursion(tv, contains, indices) {
                        Err(e) => Err(e),
                        Ok(RecursionState::Invalid) => Ok(
                            Verdict::Reject(RejectReason::InvalidPoint),
                        ),
                        Ok(RecursionState::Absent) => Ok(pairing_verdict(p0, p1, g2x)),
                        Ok(RecursionState::Present(r0, r1)) => {
                            let w = mul_mod(separator, separator, fr_modulus());
                            Ok(
                                pairing_verdict(
                                    g1_add(p0, g1_mul(w, r0)),
                                    g1_add(p1, g1_mul(w, r1)),
                                    g2x,
                                ),
                            )
                        },
                    }
                },
            },
        },
    }
}

/// The last step: checks the opening proofs, sums the accumulated
/// commitments times their scalars, and decides by the pairing.
pub fn final_check(
    transcript: &Transcript,
    key: &VerificationKey,
    accumulators: &Accumulators,
    state: &mut PippengerRuntimeState,
) -> (r: Result<Verdict, Error>)
    requires
        transcript.wf(),
        key.wf(),
        accumulators.wf(),
    ensures
        r == spec_final_check(
            transcript@,
            accumulators.kate_g1_elements.keys@,
            accumulators.kate_g1_elements.values@,
            accumulators.kate_fr_elements@,
            key.contains_recursive_proof,
            key.recursive_proof_public_input_indices@,
            key.reference_string.g2_x@,
        ),
{
    let pi_z = match read_point(transcript, "PI_Z") {
        Ok(p) => p,
        Err(Error::InvalidProof) => {
            return Ok(Verdict::Reject(RejectReason::InvalidPoint));
        },
        Err(e) => {
            return Err(e);
        },
    };
    let pi_z_omega = match read_point(transcript, "PI_Z_OMEGA") {
        Ok(p) => p,
        Err(Error::InvalidProof) => {
            return Ok(Verdict::Reject(RejectReason::InvalidPoint));
        },
        Err(e) => {
            return Err(e);
        },
    };
    let separator = match read_challenge(transcript, "separator", 0) {
        Ok(v) => v,
        Err(e) => {
            return Err(e);
        },
    };
    let (scalars, elements) = collect_inputs(accumulators);
    let p0 = match pippenger(scalars.as_slice(), elements.as_slice(), state) {
        Ok(p) => p,
        Err(e) => {
            return Err(e);
        },
    };
    let p1 = pi_z_omega.mul(&separator).add(&pi_z).neg();
    let g2x = key.reference_string.get_g2x();
    match recover_recursion_points(transcript, key) {
        Err(e) => Err(e),
        Ok(RecursionPoints::Invalid) => Ok(Verdict::Reject(RejectReason::InvalidPoint)),
        Ok(RecursionPoints::Absent) => {
            if pairing_check(&p0, &p1, &g2x) {
                Ok(Verdict::Accept)
            } else {
                Ok(Verdict::Reject(RejectReason::PairingMismatch))
            }
        },
        Ok(RecursionPoints::Present(r0, r1)) => {
            let w = separator.square();
            let q0 = p0.add(&r0.mul(&w));
            let q1 = p1.add(&r1.mul(&w));
            if pairing_check(&q0, &q1, &g2x) {
                Ok(Verdict::Accept)
            } else {
                Ok(Verdict::Reject(RejectReason::PairingMismatch))
            }
        },
    }
}

/// The relations of a circuit, as far as the verifier needs them.
/// Whoever builds the circuit supplies them; nothing is taken on trust of
/// what they return.
pub trait VerifierWidgets {
    /// The value at the challenge point of the numerator of the quotient:
    /// the sum of what every relation contributes.
    fn compute_quotient_evaluation_contribution(
        &self,
        key: &VerificationKey,
        point: &ChallengePoint,
        transcript: &Transcript,
    ) -> (r: Fr)
        requires
            key.wf(),
            point.wf(),
            transcript.wf(),
    ;

    /// Changes the scalars of the commitments by what every relation adds
    /// to them.
    fn append_scalar_multiplication_inputs(
        &self,
        key: &VerificationKey,
        point: &ChallengePoint,
        transcript: &Transcript,
        scalars: &mut LabelMap<Fr>,
    )
        requires
            key.wf(),
            point.wf(),
            transcript.wf(),
            scalars_map_wf(*old(scalars)),
    ;
}

/// Whether a map of scalars has unique labels and canonical scalars.
pub fn scalars_are_valid(scalars: &LabelMap<Fr>) -> (r: bool)
    ensures
        r == scalars_map_wf(*scalars),
{
    if !scalars.is_well_formed() {
        return false;
    }
    let mut i: usize = 0;
    while i < scalars.values.len()
        invariant
            i <= scalars.values@.len(),
            scalars.wf(),
            forall|k: int| 0 <= k < i ==> (#[trigger] scalars.values@[k]).wf(),
        decreases scalars.values@.len() - i,
    {
        if !scalars.values[i].is_canonical() {
            return false;
        }
        i = i + 1;
    }
    true
}

/// What a verifier is made of: the variant of the proof system, the
/// manifest of the transcript, the key of the circuit, and the commitment
/// scheme.
pub struct VerifierBase {
    pub settings: Settings,
    pub manifest: Manifest,
    pub key: VerificationKey,
    pub commitment_scheme: Option<KateCommitmentScheme>,
}

impl VerifierBase {
    /// The key fits together.
    pub open spec fn wf(&self) -> bool {
        self.key.wf()
    }

    /// A verifier for a key and a manifest, with the Kate commitment
    /// scheme. The key learns the number of wires of the variant.
    pub fn new(settings: Settings, key: VerificationKey, manifest: Manifest) -> (r: VerifierBase)
        requires
            key.wf(),
        ensures
            r.wf(),
            r.settings == settings,
            r.manifest == manifest,
            r.commitment_scheme is Some,
            r.key.program_width == settings.spec_program_width(),
            r.key.composer_type == key.composer_type,
            r.key.circuit_size == key.circuit_size,
            r.key.num_public_inputs == key.num_public_inputs,
            r.key.domain == key.domain,
            r.key.reference_string == key.reference_string,
            r.key.commitments == key.commitments,
            r.key.polynomial_manifest == key.polynomial_manifest,
            r.key.contains_recursive_proof == key.contains_recursive_proof,
            r.key.recursive_proof_public_input_indices == key.recursive_proof_public_input_indices,
    {
        let mut key = key;
        key.program_width = settings.program_width();
        VerifierBase { settings, manifest, key, commitment_scheme: Some(KateCommitmentScheme::new()) }
    }

    /// A copy of a verifier.
    pub fn from_other(other: &Self) -> (r: Self)
        requires
            other.wf(),
        ensures
            r.wf(),
            r.settings == other.settings,
            r.manifest@ == other.manifest@,
            r.commitment_scheme is Some == other.commitment_scheme is Some,
            r.key.composer_type == other.key.composer_type,
            r.key.circuit_size == other.key.circuit_size,
            r.key.num_public_inputs == other.key.num_public_inputs,
            r.key.domain.root == other.key.domain.root,
            r.key.reference_string.g2_x == other.key.reference_string.g2_x,
            r.key.commitments@ == other.key.commitments@,
            r.key.polynomial_manifest@ == other.key.polynomial_manifest@,
            r.key.contains_recursive_proof == other.key.contains_recursive_proof,
            r.key.recursive_proof_public_input_indices@
                == other.key.recursive_proof_public_input_indices@,
            r.key.program_width == other.key.program_width,
    {
        Self {
            settings: other.settings,
            manifest: other.manifest.duplicate(),
            key: other.key.duplicate(),
            commitment_scheme: match &other.commitment_scheme {
                Some(_) => Some(KateCommitmentScheme::new()),
                None => None,
            },
        }
    }
}

/// What a verifier reads of its key, as plain values.
pub struct KeyFacts {
    pub circuit_size: usize,
    pub num_public_inputs: usize,
    pub root: int,
    pub commitments: Map<Seq<char>, G1Point>,
    pub polynomials: Seq<(Seq<char>, Seq<char>, bool, PolynomialSource)>,
    pub program_width: nat,
    pub contains_recursive_proof: bool,
    pub recursive_proof_public_input_indices: Seq<u32>,
    pub g2x: G2Point,
}

/// What a verifier reads of a key.
pub open spec fn key_facts(key: VerificationKey) -> KeyFacts {
    KeyFacts {
        circuit_size: key.circuit_size,
        num_public_inputs: key.num_public_inputs,
        root: key.domain.root@,
        commitments: results_view(key.commitments@),
        polynomials: key.polynomial_manifest@,
        program_width: key.program_width as nat,
        contains_recursive_proof: key.contains_recursive_proof,
        recursive_proof_public_input_indices: key.recursive_proof_public_input_indices@,
        g2x: key.reference_string.g2_x@,
    }
}

/// What a verifier of a variant of the proof system reads of a key: the
/// number of wires is that of the variant.
pub open spec fn facts_for(key: VerificationKey, settings: Settings) -> KeyFacts {
    KeyFacts { program_width: settings.spec_program_width(), ..key_facts(key) }
}

/// The verdict from the fourth step on, for a transcript that holds the
/// quotient and all challenges. `points` are the commitments as the scheme
/// accumulated them, in the order in which they went in, and `scalars` the
/// scalars as the relations left them. Scalars that are not canonical, or
/// under labels that are not unique, are an error, as is a verifier
/// without a commitment scheme. There is no verdict where `points` are not
/// what the scheme accumulates.
pub open spec fn verdict_of_batch(
    t: TranscriptState,
    key: KeyFacts,
    has_scheme: bool,
    points: LabelMap<G1Affine>,
    scalars: LabelMap<Fr>,
) -> Option<Result<Verdict, Error>> {
    if !has_scheme {
        Some(Err(Error::InvalidInput))
    } else {
        match batch_verify_spec(
            t,
            key.commitments,
            key.polynomials,
            key.circuit_size as nat,
            key.program_width,
            key.root,
            empty_batch(),
        ) {
            Err(Error::InvalidProof) => Some(Ok(Verdict::Reject(RejectReason::InvalidPoint))),
            Err(e) => Some(Err(e)),
            Ok(b) => if !(points_map_wf(points) && results_view(points@) == b.points) {
                None
            } else if !scalars_map_wf(scalars) {
                Some(Err(Error::InvalidInput))
            } else {
                Some(
                    spec_final_check(
                        t,
                        points.keys@,
                        points.values@,
                        scalars@,
                        key.contains_recursive_proof,
                        key.recursive_proof_public_input_indices,
                        key.g2x,
                    ),
                )
            },
        }
    }
}

/// The verdict from the second step on, for a transcript that holds the
/// proof and the challenges up to `z`. `numerator` is what the relations
/// give for the numerator of the quotient; one that is not canonical is an
/// error.
pub open spec fn verdict_of_quotient(
    s: TranscriptState,
    key: KeyFacts,
    has_scheme: bool,
    numerator: Fr,
    points: LabelMap<G1Affine>,
    scalars: LabelMap<Fr>,
) -> Option<Result<Verdict, Error>> {
    match (tv_challenge(s, "alpha"@, 0), tv_challenge(s, "z"@, 0)) {
        (Ok(alpha), Ok(zeta)) => {
            let n = key.circuit_size as int;
            if spec_first_divisor(n, zeta) == 0 || spec_last_divisor(n, key.root, zeta) == 0 {
                Some(Ok(Verdict::Reject(RejectReason::InvalidPoint)))
            } else if !numerator.wf() {
                Some(Err(Error::InvalidInput))
            } else {
                match quotient_rounds(s, numerator@, spec_vanishing(n, zeta)) {
                    None => Some(Ok(Verdict::Reject(RejectReason::InvalidPoint))),
                    Some(Err(e)) => Some(Err(e)),
                    Some(Ok(t)) => verdict_of_batch(t, key, has_scheme, points, scalars),
                }
            }
        },
        _ => Some(Err(Error::ProtocolError)),
    }
}

/// The verdict of a verifier on a proof, for what the relations of the
/// circuit answer in its course: the numerator of the quotient and the
/// scalars. A proof of the wrong length is rejected, and a manifest without
/// the rounds of the protocol is an error, before any relation is asked.
pub open spec fn spec_verdict(
    manifest: Seq<(Seq<char>, nat, Seq<(Seq<char>, nat, bool)>)>,
    settings: Settings,
    key: KeyFacts,
    has_scheme: bool,
    proof_data: Seq<u8>,
    numerator: Fr,
    points: LabelMap<G1Affine>,
    scalars: LabelMap<Fr>,
) -> Option<Result<Verdict, Error>> {
    if !proof_fits(manifest, proof_data) {
        Some(Ok(Verdict::Reject(RejectReason::MissingChallenge)))
    } else {
        match challenge_rounds(
            initial_state(
                manifest,
                settings,
                proof_data,
                key.circuit_size as u32,
                key.num_public_inputs as u32,
            ),
            first_rounds(),
            5,
        ) {
            Err(e) => Some(Err(e)),
            Ok(s) => verdict_of_quotient(s, key, has_scheme, numerator, points, scalars),
        }
    }
}

/// Whether `r` is the verdict from the fourth step on for some scalars
/// that the relations may leave.
pub open spec fn is_verdict_of_batch(
    t: TranscriptState,
    key: KeyFacts,
    has_scheme: bool,
    r: Result<Verdict, Error>,
) -> bool {
    exists|points: LabelMap<G1Affine>, scalars: LabelMap<Fr>| #[trigger]
        verdict_of_batch(t, key, has_scheme, points, scalars) == Some(r)
}

/// Whether `r` is the verdict from the second step on for something that
/// the relations may answer.
pub open spec fn is_verdict_of_quotient(
    s: TranscriptState,
    key: KeyFacts,
    has_scheme: bool,
    r: Result<Verdict, Error>,
) -> bool {
    exists|numerator: Fr, points: LabelMap<G1Affine>, scalars: LabelMap<Fr>| #[trigger]
        verdict_of_quotient(s, key, has_scheme, numerator, points, scalars) == Some(r)
}

/// Whether `r` is the verdict on a proof for something that the relations
/// of the circuit may answer.
pub open spec fn is_verdict(
    manifest: Seq<(Seq<char>, nat, Seq<(Seq<char>, nat, bool)>)>,
    settings: Settings,
    key: KeyFacts,
    has_scheme: bool,
    proof_data: Seq<u8>,
    r: Result<Verdict, Error>,
) -> bool {
    exists|numerator: Fr, points: LabelMap<G1Affine>, scalars: LabelMap<Fr>|
        #[trigger] spec_verdict(
            manifest,
            settings,
            key,
            has_scheme,
            proof_data,
            numerator,
            points,
            scalars,
        ) == Some(r)
}

/// The fourth and the last step, and between them the scalars that the
/// relations add.
fn batch_and_check<W: VerifierWidgets>(
    verifier: &VerifierBase,
    transcript: &Transcript,
    point: &ChallengePoint,
    widgets: &W,
) -> (r: Result<Verdict, Error>)
    requires
        verifier.wf(),
        transcript.wf(),
        point.wf(),
    ensures
        is_verdict_of_batch(
            transcript@,
            key_facts(verifier.key),
            verifier.commitment_scheme is Some,
            r,
        ),
{
    let key = &verifier.key;
    let ghost facts = key_facts(verifier.key);
    let ghost has_scheme = verifier.commitment_scheme is Some;
    let ghost no_points: LabelMap<G1Affine> = arbitrary();
    let ghost no_scalars: LabelMap<Fr> = arbitrary();
    let scheme = match &verifier.commitment_scheme {
        Some(s) => s,
        None => {
            let r = Err(Error::InvalidInput);
            proof {
                assert(verdict_of_batch(transcript@, facts, has_scheme, no_points, no_scalars)
                    == Some(r));
            }
            return r;
        },
    };
    let mut accumulators = match batch_commitments(transcript, key, scheme) {
        Ok(Step::Continue(a)) => a,
        Ok(Step::Reject(reason)) => {
            let r = Ok(Verdict::Reject(reason));
            proof {
                assert(verdict_of_batch(transcript@, facts, has_scheme, no_points, no_scalars)
                    == Some(r));
            }
            return r;
        },
        Err(e) => {
            let r = Err(e);
            proof {
                assert(verdict_of_batch(transcript@, facts, has_scheme, no_points, no_scalars)
                    == Some(r));
            }
            return r;
        },
    };
    widgets.append_scalar_multiplication_inputs(
        key,
        point,
        transcript,
        &mut accumulators.kate_fr_elements,
    );
    let ghost points = accumulators.kate_g1_elements;
    let ghost scalars = accumulators.kate_fr_elements;
    if !scalars_are_valid(&accumulators.kate_fr_elements) {
        let r = Err(Error::InvalidInput);
        proof {
            assert(verdict_of_batch(transcript@, facts, has_scheme, points, scalars) == Some(r));
        }
        return r;
    }
    let mut state = PippengerRuntimeState::new(accumulators.kate_g1_elements.len());
    let r = final_check(transcript, key, &accumulators, &mut state);
    proof {
        assert(verdict_of_batch(transcript@, facts, has_scheme, points, scalars) == Some(r));
    }
    r
}

/// The second and third step with the numerator that the relations give,
/// and what follows them.
fn evaluate_and_check<W: VerifierWidgets>(
    verifier: &VerifierBase,
    transcript: &mut Transcript,
    widgets: &W,
) -> (r: Result<Verdict, Error>)
    requires
        verifier.wf(),
        old(transcript).wf(),
    ensures
        is_verdict_of_quotient(
            old(transcript)@,
            key_facts(verifier.key),
            verifier.commitment_scheme is Some,
            r,
        ),
{
    let key = &verifier.key;
    let ghost facts = key_facts(verifier.key);
    let ghost has_scheme = verifier.commitment_scheme is Some;
    let ghost challenged = transcript@;
    let ghost no_numerator: Fr = arbitrary();
    let ghost no_points: LabelMap<G1Affine> = arbitrary();
    let ghost no_scalars: LabelMap<Fr> = arbitrary();
    let point = match evaluate_lagrange(transcript, key) {
        Ok(Step::Continue(c)) => c,
        Ok(Step::Reject(reason)) => {
            let r = Ok(Verdict::Reject(reason));
            proof {
                assert(verdict_of_quotient(
                    challenged,
                    facts,
                    has_scheme,
                    no_numerator,
                    no_points,
                    no_scalars,
                ) == Some(r));
            }
            return r;
        },
        Err(e) => {
            let r = Err(e);
            proof {
                assert(verdict_of_quotient(
                    challenged,
                    facts,
                    has_scheme,
                    no_numerator,
                    no_points,
                    no_scalars,
                ) == Some(r));
            }
            return r;
        },
    };
    let numerator = widgets.compute_quotient_evaluation_contribution(key, &point, transcript);
    if !numerator.is_canonical() {
        let r = Err(Error::InvalidInput);
        proof {
            assert(verdict_of_quotient(
                challenged,
                facts,
                has_scheme,
                numerator,
                no_points,
                no_scalars,
            ) == Some(r));
        }
        return r;
    }
    match evaluate_quotient(transcript, &numerator, &point.lagrange.vanishing_poly) {
        Ok(Step::Continue(_)) => {},
        Ok(Step::Reject(reason)) => {
            let r = Ok(Verdict::Reject(reason));
            proof {
                assert(verdict_of_quotient(
                    challenged,
                    facts,
                    has_scheme,
                    numerator,
                    no_points,
                    no_scalars,
                ) == Some(r));
            }
            return r;
        },
        Err(e) => {
            let r = Err(e);
            proof {
                assert(verdict_of_quotient(
                    challenged,
                    facts,
                    has_scheme,
                    numerator,
                    no_points,
                    no_scalars,
                ) == Some(r));
            }
            return r;
        },
    }
    let r = batch_and_check(verifier, transcript, &point, widgets);
    proof {
        let complete = transcript@;
        let (points, scalars) = choose|points: LabelMap<G1Affine>, scalars: LabelMap<Fr>| #[trigger]
            verdict_of_batch(complete, facts, has_scheme, points, scalars) == Some(r);
        assert(verdict_of_quotient(challenged, facts, has_scheme, numerator, points, scalars)
            == Some(r));
    }
    r
}

/// Verifies a proof: derives the challenges, lets the relations
/// evaluate the numerator of the quotient, adds the quotient, batches the
/// commitments, lets the relations add to the scalars, and decides by
/// the pairing. The result is the verdict that `spec_verdict` gives for
/// what the relations answered. A proof of the wrong length is rejected
/// before any relation is asked; a proof is never accepted by a verifier
/// without a commitment scheme. Relations that return a scalar that is not
/// canonical, or scalars under labels that are not unique, are an error.
pub fn verify_proof<W: VerifierWidgets>(
    verifier: &VerifierBase,
    proof: &Proof,
    widgets: &W,
) -> (r: Result<Verdict, Error>)
    requires
        verifier.wf(),
    ensures
        is_verdict(
            verifier.manifest@,
            verifier.settings,
            key_facts(verifier.key),
            verifier.commitment_scheme is Some,
            proof.proof_data@,
            r,
        ),
{
    let ghost manifest = verifier.manifest@;
    let ghost settings = verifier.settings;
    let ghost facts = key_facts(verifier.key);
    let ghost has_scheme = verifier.commitment_scheme is Some;
    let ghost data = proof.proof_data@;
    let ghost no_numerator: Fr = arbitrary();
    let ghost no_points: LabelMap<G1Affine> = arbitrary();
    let ghost no_scalars: LabelMap<Fr> = arbitrary();
    let mut transcript = match derive_challenges(
        &verifier.key,
        &verifier.manifest,
        verifier.settings,
        proof,
    ) {
        Ok(Step::Continue(t)) => t,
        Ok(Step::Reject(reason)) => {
            let r = Ok(Verdict::Reject(reason));
            proof {
                assert(spec_verdict(
                    manifest,
                    settings,
                    facts,
                    has_scheme,
                    data,
                    no_numerator,
                    no_points,
                    no_scalars,
                ) == Some(r));
            }
            return r;
        },
        Err(e) => {
            let r = Err(e);
            proof {
                assert(spec_verdict(
                    manifest,
                    settings,
                    facts,
                    has_scheme,
                    data,
                    no_numerator,
                    no_points,
                    no_scalars,
                ) == Some(r));
            }
            return r;
        },
    };
    let ghost challenged = transcript@;
    let r = evaluate_and_check(verifier, &mut transcript, widgets);
    proof {
        let (numerator, points, scalars) = choose|
            numerator: Fr,
            points: LabelMap<G1Affine>,
            scalars: LabelMap<Fr>,
        | #[trigger]
            verdict_of_quotient(challenged, facts, has_scheme, numerator, points, scalars) == Some(
                r,
            );
        assert(spec_verdict(manifest, settings, facts, has_scheme, data, numerator, points, scalars)
            == Some(r));
    }
    r
}

/// What a verdict that `spec_verdict` gives says before any relation is
/// asked: a proof of the wrong length is rejected, a transcript that fails
/// is that error, and a challenge point on the domain of the circuit is
/// rejected; without a commitment scheme nothing is accepted.
pub proof fn lemma_verdict_before_relations(
    manifest: Seq<(Seq<char>, nat, Seq<(Seq<char>, nat, bool)>)>,
    settings: Settings,
    key: KeyFacts,
    has_scheme: bool,
    proof_data: Seq<u8>,
    r: Result<Verdict, Error>,
)
    requires
        is_verdict(manifest, settings, key, has_scheme, proof_data, r),
    ensures
        !proof_fits(manifest, proof_data) ==> r == Ok::<Verdict, Error>(
            Verdict::Reject(RejectReason::MissingChallenge),
        ),
        proof_fits(manifest, proof_data) ==> (match challenge_rounds(
            initial_state(
                manifest,
                settings,
                proof_data,
                key.circuit_size as u32,
                key.num_public_inputs as u32,
            ),
            first_rounds(),
            5,
        ) {
            Err(e) => r == Err::<Verdict, Error>(e),
            Ok(s) => match (tv_challenge(s, "alpha"@, 0), tv_challenge(s, "z"@, 0)) {
                (Ok(alpha), Ok(zeta)) => {
                    let n = key.circuit_size as int;
                    spec_first_divisor(n, zeta) == 0 || spec_last_divisor(n, key.root, zeta) == 0
                        ==> r == Ok::<Verdict, Error>(Verdict::Reject(RejectReason::InvalidPoint))
                },
                _ => r == Err::<Verdict, Error>(Error::ProtocolError),
            },
        }),
        !has_scheme ==> !(r matches Ok(Verdict::Accept)),
{
    let (numerator, points, scalars) = choose|
        numerator: Fr,
        points: LabelMap<G1Affine>,
        scalars: LabelMap<Fr>,
    | #[trigger]
        spec_verdict(manifest, settings, key, has_scheme, proof_data, numerator, points, scalars)
            == Some(r);
    if proof_fits(manifest, proof_data) {
        match challenge_rounds(
            initial_state(
                manifest,
                settings,
                proof_data,
                key.circuit_size as u32,
                key.num_public_inputs as u32,
            ),
            first_rounds(),
            5,
        ) {
            Err(e) => {},
            Ok(s) => {
                assert(verdict_of_quotient(s, key, has_scheme, numerator, points, scalars) == Some(
                    r,
                ));
            },
        }
    }
}

/// A proof with an opening proof that is no point of the curve is never
/// accepted, whatever the relations answer: where the bytes of `PI_Z` or of
/// `PI_Z_OMEGA` spell no point of the curve, the verdict is a rejection or
/// an error.
pub proof fn lemma_bad_opening_proof_is_not_accepted(
    manifest: Seq<(Seq<char>, nat, Seq<(Seq<char>, nat, bool)>)>,
    settings: Settings,
    key: KeyFacts,
    has_scheme: bool,
    proof_data: Seq<u8>,
    r: Result<Verdict, Error>,
)
    requires
        is_verdict(manifest, settings, key, has_scheme, proof_data, r),
        ({
            let start = initial_state(
                manifest,
                settings,
                proof_data,
                key.circuit_size as u32,
                key.num_public_inputs as u32,
            );
            tv_point(start, "PI_Z"@) is Err || tv_point(start, "PI_Z_OMEGA"@) is Err
        }),
    ensures
        r != Ok::<Verdict, Error>(Verdict::Accept),
{
    let (numerator, points, scalars) = choose|
        numerator: Fr,
        points: LabelMap<G1Affine>,
        scalars: LabelMap<Fr>,
    | #[trigger]
        spec_verdict(manifest, settings, key, has_scheme, proof_data, numerator, points, scalars)
            == Some(r);
    let start = initial_state(
        manifest,
        settings,
        proof_data,
        key.circuit_size as u32,
        key.num_public_inputs as u32,
    );
    if proof_fits(manifest, proof_data) {
        if let Ok(s) = challenge_rounds(start, first_rounds(), 5) {
            lemma_challenge_rounds_keep_elements(start, first_rounds(), 5);
            assert(verdict_of_quotient(s, key, has_scheme, numerator, points, scalars) == Some(r));
            if let (Ok(alpha), Ok(zeta)) = (tv_challenge(s, "alpha"@, 0), tv_challenge(s, "z"@, 0)) {
                let n = key.circuit_size as int;
                if let Some(Ok(t)) = quotient_rounds(s, numerator@, spec_vanishing(n, zeta)) {
                    let p = fr_modulus();
                    let value = mul_mod(numerator@, inv_mod(spec_vanishing(n, zeta), p), p);
                    let with_quotient = TranscriptState {
                        elements: s.elements.insert("t"@, spec_bytes32(value)),
                        ..s
                    };
                    lemma_challenge_rounds_keep_elements(with_quotient, last_rounds(), 2);
                    reveal_strlit("t");
                    reveal_strlit("PI_Z");
                    reveal_strlit("PI_Z_OMEGA");
                    assert("t"@.len() != "PI_Z"@.len());
                    assert("t"@.len() != "PI_Z_OMEGA"@.len());
                    assert(tv_point(t, "PI_Z"@) == tv_point(start, "PI_Z"@));
                    assert(tv_point(t, "PI_Z_OMEGA"@) == tv_point(start, "PI_Z_OMEGA"@));
                }
            }
        }
    }
}

/// The commitments to the first `k` polynomials of a manifest that a key
/// fixes, each under its label: the bucket-method sum of the first `n`
/// coefficients of the polynomial times the first `n` monomial points. A
/// polynomial that the store lacks, or that has fewer than `n`
/// coefficients, is refused.
pub open spec fn key_commitments(
    store: PolynomialStore,
    monomials: Seq<G1Point>,
    polynomials: Seq<(Seq<char>, Seq<char>, bool, PolynomialSource)>,
    n: nat,
    k: nat,
) -> Result<Map<Seq<char>, G1Point>, Error>
    decreases k,
{
    if k == 0 {
        Ok(Map::empty())
    } else {
        match key_commitments(store, monomials, polynomials, n, (k - 1) as nat) {
            Err(e) => Err(e),
            Ok(m) => {
                let (commitment_label, polynomial_label, shifted, source) = polynomials[k - 1];
                if source == PolynomialSource::Witness {
                    Ok(m)
                } else if !store.spec_contains(polynomial_label) || store.spec_get(
                    polynomial_label,
                ).len() < n {
                    Err(Error::InvalidInput)
                } else {
                    Ok(
                        m.insert(
                            commitment_label,
                            pippenger_sum(
                                store.spec_get(polynomial_label).take(n as int),
                                monomials.take(n as int),
                            ),
                        ),
                    )
                }
            },
        }
    }
}

/// The commitments of `key_commitments` with each sum added up term by
/// term: the multiples of the monomial points by the coefficients, one
/// after the other.
pub open spec fn key_sums(
    store: PolynomialStore,
    monomials: Seq<G1Point>,
    polynomials: Seq<(Seq<char>, Seq<char>, bool, PolynomialSource)>,
    n: nat,
    k: nat,
) -> Result<Map<Seq<char>, G1Point>, Error>
    decreases k,
{
    if k == 0 {
        Ok(Map::empty())
    } else {
        match key_sums(store, monomials, polynomials, n, (k - 1) as nat) {
            Err(e) => Err(e),
            Ok(m) => {
                let (commitment_label, polynomial_label, shifted, source) = polynomials[k - 1];
                if source == PolynomialSource::Witness {
                    Ok(m)
                } else if !store.spec_contains(polynomial_label) || store.spec_get(
                    polynomial_label,
                ).len() < n {
                    Err(Error::InvalidInput)
                } else {
                    Ok(
                        m.insert(
                            commitment_label,
                            msm(
                                store.spec_get(polynomial_label).take(n as int),
                                monomials.take(n as int),
                            ),
                        ),
                    )
                }
            },
        }
    }
}

/// Where the monomial points are on the curve and the curve's addition is
/// a group law, the commitments of a key are the sums of the multiples of
/// the monomial points by the coefficients, added up one by one.
pub proof fn lemma_key_commitments_are_sums(
    store: PolynomialStore,
    monomials: Seq<G1Point>,
    polynomials: Seq<(Seq<char>, Seq<char>, bool, PolynomialSource)>,
    n: nat,
    k: nat,
)
    requires
        g1_laws(),
        all_valid(monomials),
        store.wf(),
        n <= monomials.len(),
    ensures
        key_commitments(store, monomials, polynomials, n, k) == key_sums(
            store,
            monomials,
            polynomials,
            n,
            k,
        ),
    decreases k,
{
    if k > 0 {
        lemma_key_commitments_are_sums(store, monomials, polynomials, n, (k - 1) as nat);
        let label = polynomials[k - 1].1;
        if store.spec_contains(label) && store.spec_get(label).len() >= n {
            let keys = store.polynomials.keys@;
            let values = store.polynomials.values@;
            crate::label_map::lemma_entries_map_domain(keys, values, keys.len(), label);
            let i = choose|i: int| 0 <= i < keys.len() && #[trigger] keys[i]@ == label;
            crate::label_map::lemma_entries_map_value(keys, values, keys.len(), i);
            let polynomial = values[i];
            assert(polynomial.wf());
            let scalars = store.spec_get(label).take(n as int);
            let points = monomials.take(n as int);
            assert forall|j: int| 0 <= j < scalars.len() implies 0 <= #[trigger] scalars[j]
                < fr_modulus() by {
                assert(polynomial.coefficients@[j].wf());
                assert(scalars[j] == polynomial@[j]);
            }
            assert(all_valid(points)) by {
                assert forall|j: int| 0 <= j < points.len() implies crate::group_laws::g1_valid(
                    #[trigger] points[j],
                ) by {
                    assert(points[j] == monomials[j]);
                }
            }
            crate::pippenger::lemma_pippenger_sum_is_msm(scalars, points);
        }
    }
}

/// Later polynomials change nothing about the first failure.
pub proof fn lemma_key_commitments_stays(
    store: PolynomialStore,
    monomials: Seq<G1Point>,
    polynomials: Seq<(Seq<char>, Seq<char>, bool, PolynomialSource)>,
    n: nat,
    k: nat,
    m: nat,
)
    requires
        k <= m,
        key_commitments(store, monomials, polynomials, n, k) is Err,
    ensures
        key_commitments(store, monomials, polynomials, n, m) == key_commitments(
            store,
            monomials,
            polynomials,
            n,
            k,
        ),
    decreases m,
{
    if k < m {
        lemma_key_commitments_stays(store, monomials, polynomials, n, k, (m - 1) as nat);
    }
}

/// The kind of circuit that a number stands for.
pub open spec fn spec_composer_of(composer_type: u32) -> ComposerType {
    if composer_type == 0 {
        ComposerType::Standard
    } else if composer_type == 1 {
        ComposerType::Turbo
    } else {
        ComposerType::Plookup
    }
}

/// The variant of the proof system for a kind of circuit.
pub open spec fn spec_settings_of(composer_type: u32) -> Settings {
    if composer_type == 0 {
        Settings::Standard
    } else if composer_type == 1 {
        Settings::Turbo
    } else {
        Settings::Ultra
    }
}

/// Commits to the polynomials that a key fixes and puts the commitments
/// into the verification key.
fn commit_key_polynomials(
    circuit_proving_key: &ProvingKey,
    key: &mut VerificationKey,
    state: &mut PippengerRuntimeState,
) -> (r: Result<(), Error>)
    requires
        circuit_proving_key.wf(),
        old(key).wf(),
        old(key).commitments@ == Map::<Seq<char>, G1Affine>::empty(),
        old(key).circuit_size == circuit_proving_key.circuit_size,
        old(key).circuit_size <= circuit_proving_key.reference_string.monomials@.len(),
    ensures
        final(key).wf(),
        final(key).composer_type == old(key).composer_type,
        final(key).circuit_size == old(key).circuit_size,
        final(key).num_public_inputs == old(key).num_public_inputs,
        final(key).domain == old(key).domain,
        final(key).reference_string == old(key).reference_string,
        final(key).polynomial_manifest == old(key).polynomial_manifest,
        final(key).contains_recursive_proof == old(key).contains_recursive_proof,
        final(key).recursive_proof_public_input_indices == old(
            key,
        ).recursive_proof_public_input_indices,
        final(key).program_width == old(key).program_width,
        match key_commitments(
            circuit_proving_key.polynomial_store,
            points_view(circuit_proving_key.reference_string.monomials@),
            old(key).polynomial_manifest@,
            old(key).circuit_size as nat,
            old(key).polynomial_manifest@.len(),
        ) {
            Err(e) => r == Err::<(), Error>(e),
            Ok(m) => r is Ok && results_view(final(key).commitments@) == m,
        },
{
    let ghost store = circuit_proving_key.polynomial_store;
    let ghost monomials = points_view(circuit_proving_key.reference_string.monomials@);
    let ghost pv = key.polynomial_manifest@;
    let n = key.circuit_size;
    let count = key.polynomial_manifest.entries.len();
    let mut i: usize = 0;
    proof {
        assert(results_view(key.commitments@) =~= Map::empty());
    }
    while i < count
        invariant
            i <= count,
            count == pv.len(),
            circuit_proving_key.wf(),
            key.wf(),
            n == key.circuit_size,
            n <= circuit_proving_key.reference_string.monomials@.len(),
            store == circuit_proving_key.polynomial_store,
            monomials == points_view(circuit_proving_key.reference_string.monomials@),
            pv == key.polynomial_manifest@,
            key.composer_type == old(key).composer_type,
            key.circuit_size == old(key).circuit_size,
            key.num_public_inputs == old(key).num_public_inputs,
            key.domain == old(key).domain,
            key.reference_string == old(key).reference_string,
            key.polynomial_manifest == old(key).polynomial_manifest,
            key.contains_recursive_proof == old(key).contains_recursive_proof,
            key.recursive_proof_public_input_indices == old(
                key,
            ).recursive_proof_public_input_indices,
            key.program_width == old(key).program_width,
            key_commitments(store, monomials, pv, n as nat, i as nat) == Ok::<
                Map<Seq<char>, G1Point>,
                Error,
            >(results_view(key.commitments@)),
        decreases count - i,
    {
        let d = &key.polynomial_manifest.entries[i];
        proof {
            assert(pv[i as int] == (
                d.commitment_label@,
                d.polynomial_label@,
                d.requires_shifted_evaluation,
                d.source,
            ));
        }
        match d.source {
            PolynomialSource::Witness => {},
            _ => {
                let polynomial = match circuit_proving_key.polynomial_store.get(
                    d.polynomial_label.as_str(),
                ) {
                    Some(p) => p,
                    None => {
                        proof {
                            lemma_key_commitments_stays(
                                store,
                                monomials,
                                pv,
                                n as nat,
                                (i + 1) as nat,
                                pv.len(),
                            );
                        }
                        return Err(Error::InvalidInput);
                    },
                };
                if polynomial.size() < n {
                    proof {
                        lemma_key_commitments_stays(
                            store,
                            monomials,
                            pv,
                            n as nat,
                            (i + 1) as nat,
                            pv.len(),
                        );
                    }
                    return Err(Error::InvalidInput);
                }
                let coefficients = vstd::slice::slice_subrange(
                    polynomial.coefficients.as_slice(),
                    0,
                    n,
                );
                let points = vstd::slice::slice_subrange(
                    circuit_proving_key.reference_string.monomials.as_slice(),
                    0,
                    n,
                );
                proof {
                    assert(fr_values(coefficients@) =~= store.spec_get(d.polynomial_label@).take(
                        n as int,
                    ));
                    assert(points_view(points@) =~= monomials.take(n as int));
                }
                let commitment = match pippenger(coefficients, points, state) {
                    Ok(c) => c,
                    Err(e) => {
                        return Err(e);
                    },
                };
                let label = d.commitment_label.clone();
                let ghost before = key.commitments@;
                key.commitments.insert(label.as_str(), commitment);
                proof {
                    assert(results_view(key.commitments@) =~= results_view(before).insert(
                        label@,
                        commitment@,
                    ));
                }
            },
        }
        i = i + 1;
    }
    Ok(())
}

/// The verifier of a circuit: the verification key with the commitments to
/// the polynomials that the proving key fixes, the manifest of the variant
/// that belongs to the kind of circuit, and the Kate commitment scheme.
/// An empty circuit, a reference string with fewer monomial points than the
/// circuit has rows, and a fixed polynomial that the store lacks are
/// refused.
pub fn generate_verifier(
    circuit_proving_key: &ProvingKey,
    verifier_crs: VerifierMemReferenceString,
) -> (r: Result<VerifierBase, Error>)
    requires
        circuit_proving_key.wf(),
        verifier_crs.wf(),
        32 * circuit_proving_key.num_public_inputs <= usize::MAX,
    ensures
        r matches Ok(v) ==> {
            &&& v.wf()
            &&& v.settings == spec_settings_of(circuit_proving_key.composer_type)
            &&& v.manifest@ == spec_manifest(
                v.settings,
                circuit_proving_key.num_public_inputs as nat,
            )
            &&& v.commitment_scheme is Some
            &&& v.key.composer_type == circuit_proving_key.composer_type
            &&& v.key.circuit_size == circuit_proving_key.circuit_size
            &&& v.key.num_public_inputs == circuit_proving_key.num_public_inputs
            &&& v.key.reference_string == verifier_crs
            &&& v.key.program_width == v.settings.spec_program_width()
            &&& Ok::<Map<Seq<char>, G1Point>, Error>(results_view(v.key.commitments@))
                == key_commitments(
                circuit_proving_key.polynomial_store,
                points_view(circuit_proving_key.reference_string.monomials@),
                v.key.polynomial_manifest@,
                circuit_proving_key.circuit_size as nat,
                v.key.polynomial_manifest@.len(),
            )
        },
        circuit_proving_key.circuit_size == 0 ==> r == Err::<VerifierBase, Error>(
            Error::InvalidInput,
        ),
        circuit_proving_key.circuit_size != 0
            && circuit_proving_key.reference_string.monomials@.len()
            < circuit_proving_key.circuit_size ==> r == Err::<VerifierBase, Error>(
            Error::InsufficientSrs,
        ),
        circuit_proving_key.circuit_size != 0
            && circuit_proving_key.reference_string.monomials@.len()
            >= circuit_proving_key.circuit_size ==> (match key_commitments(
            circuit_proving_key.polynomial_store,
            points_view(circuit_proving_key.reference_string.monomials@),
            spec_polynomials(spec_composer_of(circuit_proving_key.composer_type)),
            circuit_proving_key.circuit_size as nat,
            spec_polynomials(spec_composer_of(circuit_proving_key.composer_type)).len(),
        ) {
            Err(e) => r == Err::<VerifierBase, Error>(e),
            Ok(m) => r matches Ok(v) && results_view(v.key.commitments@) == m
                && v.key.polynomial_manifest@ == spec_polynomials(
                spec_composer_of(circuit_proving_key.composer_type),
            ),
        }),
{
    if circuit_proving_key.circuit_size == 0 {
        return Err(Error::InvalidInput);
    }
    let settings = if circuit_proving_key.composer_type == 0 {
        Settings::Standard
    } else if circuit_proving_key.composer_type == 1 {
        Settings::Turbo
    } else {
        Settings::Ultra
    };
    proof {
        crate::proving_key::lemma_domain_size_of_key(circuit_proving_key);
    }
    let mut key = match VerificationKey::new(
        circuit_proving_key.circuit_size,
        circuit_proving_key.num_public_inputs,
        verifier_crs,
        circuit_proving_key.composer_type,
    ) {
        Ok(k) => k,
        Err(e) => {
            return Err(e);
        },
    };
    if circuit_proving_key.reference_string.get_monomial_size() < circuit_proving_key.circuit_size {
        return Err(Error::InsufficientSrs);
    }
    let mut state = PippengerRuntimeState::new(circuit_proving_key.circuit_size);
    match commit_key_polynomials(circuit_proving_key, &mut key, &mut state) {
        Ok(()) => {},
        Err(e) => {
            return Err(e);
        },
    }
    let manifest = settings.create_manifest(circuit_proving_key.num_public_inputs);
    Ok(VerifierBase::new(settings, key, manifest))
}

/// Every commitment is a point of the curve other than the point at
/// infinity.
pub open spec fn commitments_valid(values: Seq<G1Affine>) -> bool {
    forall|i: int| 0 <= i < values.len() ==> (#[trigger] values[i])@.on_curve() && !values[i]@.infinity
}

/// Whether every commitment is a point of the curve other than the point
/// at infinity.
pub fn all_on_curve(values: &Vec<G1Affine>) -> (r: bool)
    requires
        all_points_wf(values@),
    ensures
        r == commitments_valid(values@),
{
    let mut i: usize = 0;
    while i < values.len()
        invariant
            i <= values@.len(),
            all_points_wf(values@),
            forall|j: int|
                0 <= j < i ==> (#[trigger] values@[j])@.on_curve() && !values@[j]@.infinity,
        decreases values@.len() - i,
    {
        let c = &values[i];
        if !c.on_curve() || c.is_point_at_infinity() {
            return false;
        }
        i = i + 1;
    }
    true
}

/// Every label of the one list is one of the map.
pub open spec fn labels_covered<T>(keys: Seq<String>, m: Map<Seq<char>, T>) -> bool {
    forall|i: int| 0 <= i < keys.len() ==> m.contains_key(#[trigger] keys[i]@)
}

/// A verifier with its relations and its accumulators.
pub struct VerifierBaseImpl<W: VerifierWidgets> {
    pub key: Option<VerificationKey>,
    pub manifest: Manifest,
    pub kate_g1_elements: LabelMap<G1Affine>,
    pub kate_fr_elements: LabelMap<Fr>,
    pub commitment_scheme: KateCommitmentScheme,
    pub settings: Settings,
    pub widgets: W,
}

/// The verifier of a circuit.
pub type Verifier<W> = VerifierBaseImpl<W>;

impl<W: VerifierWidgets> proof_system::plonk::VerifierBase for VerifierBaseImpl<W> {
    type Widgets = W;

    open spec fn wf(&self) -> bool {
        &&& self.key matches Some(k) ==> k.wf()
        &&& points_map_wf(self.kate_g1_elements)
        &&& scalars_map_wf(self.kate_fr_elements)
    }

    open spec fn spec_commitments_valid(&self) -> bool {
        self.key matches Some(k) && commitments_valid(k.commitments.values@)
    }

    open spec fn spec_scalars_valid(&self) -> bool {
        labels_covered(self.kate_g1_elements.keys@, self.kate_fr_elements@) && labels_covered(
            self.kate_fr_elements.keys@,
            self.kate_g1_elements@,
        )
    }

    open spec fn spec_proof_fits(&self, proof_data: Seq<u8>) -> bool {
        self.key is Some && proof_fits(self.manifest@, proof_data)
    }

    open spec fn spec_may_accept(&self, proof_data: Seq<u8>) -> bool {
        self.key matches Some(k) && is_verdict(
            self.manifest@,
            self.settings,
            facts_for(k, self.settings),
            true,
            proof_data,
            Ok(Verdict::Accept),
        )
    }

    /// A verifier for a key and a manifest, for the variant that belongs to
    /// the kind of circuit of the key, with empty accumulators.
    fn new(verifier_key: Option<VerificationKey>, manifest: Manifest, widgets: W) -> (r: Self)
        ensures
            r.key == verifier_key,
            r.manifest == manifest,
            r.widgets == widgets,
            r.settings == (match verifier_key {
                Some(k) => spec_settings_of(k.composer_type),
                None => Settings::Standard,
            }),
            r.kate_g1_elements@ == Map::<Seq<char>, G1Affine>::empty(),
            r.kate_fr_elements@ == Map::<Seq<char>, Fr>::empty(),
    {
        let settings = match &verifier_key {
            Some(k) => if k.composer_type == 0 {
                Settings::Standard
            } else if k.composer_type == 1 {
                Settings::Turbo
            } else {
                Settings::Ultra
            },
            None => Settings::Standard,
        };
        VerifierBaseImpl {
            key: verifier_key,
            manifest,
            kate_g1_elements: LabelMap::new(),
            kate_fr_elements: LabelMap::new(),
            commitment_scheme: KateCommitmentScheme::new(),
            settings,
            widgets,
        }
    }

    fn validate_commitments(&self) -> (r: bool) {
        match &self.key {
            Some(k) => all_on_curve(&k.commitments.values),
            None => false,
        }
    }

    fn validate_scalars(&self) -> (r: bool) {
        let mut i: usize = 0;
        while i < self.kate_g1_elements.keys.len()
            invariant
                i <= self.kate_g1_elements.keys@.len(),
                self.kate_fr_elements.wf(),
                labels_covered(self.kate_g1_elements.keys@.take(i as int), self.kate_fr_elements@),
            decreases self.kate_g1_elements.keys@.len() - i,
        {
            if !self.kate_fr_elements.contains(self.kate_g1_elements.keys[i].as_str()) {
                return false;
            }
            proof {
                assert forall|j: int| 0 <= j < i + 1 implies self.kate_fr_elements@.contains_key(
                    (#[trigger] self.kate_g1_elements.keys@.take(i + 1)[j])@,
                ) by {
                    if j < i {
                        assert(self.kate_g1_elements.keys@.take(i as int)[j]
                            == self.kate_g1_elements.keys@[j]);
                    }
                }
            }
            i = i + 1;
        }
        proof {
            assert(self.kate_g1_elements.keys@.take(i as int) =~= self.kate_g1_elements.keys@);
        }
        let mut k: usize = 0;
        while k < self.kate_fr_elements.keys.len()
            invariant
                k <= self.kate_fr_elements.keys@.len(),
                self.kate_g1_elements.wf(),
                labels_covered(self.kate_g1_elements.keys@, self.kate_fr_elements@),
                labels_covered(self.kate_fr_elements.keys@.take(k as int), self.kate_g1_elements@),
            decreases self.kate_fr_elements.keys@.len() - k,
        {
            if !self.kate_g1_elements.contains(self.kate_fr_elements.keys[k].as_str()) {
                return false;
            }
            proof {
                assert forall|j: int| 0 <= j < k + 1 implies self.kate_g1_elements@.contains_key(
                    (#[trigger] self.kate_fr_elements.keys@.take(k + 1)[j])@,
                ) by {
                    if j < k {
                        assert(self.kate_fr_elements.keys@.take(k as int)[j]
                            == self.kate_fr_elements.keys@[j]);
                    }
                }
            }
            k = k + 1;
        }
        proof {
            assert(self.kate_fr_elements.keys@.take(k as int) =~= self.kate_fr_elements.keys@);
        }
        true
    }

    fn verify_proof(&self, proof: &Proof) -> (r: bool) {
        let verdict = run_verifier(self, proof);
        proof {
            if let Some(k) = &self.key {
                lemma_verdict_before_relations(
                    self.manifest@,
                    self.settings,
                    facts_for(*k, self.settings),
                    true,
                    proof.proof_data@,
                    verdict,
                );
            }
        }
        match verdict {
            Ok(Verdict::Accept) => true,
            _ => false,
        }
    }
}

/// Verifies a proof with the key, the manifest and the relations of a
/// verifier. A verifier without a key is an error.
fn run_verifier<W: VerifierWidgets>(verifier: &VerifierBaseImpl<W>, proof: &Proof) -> (r: Result<
    Verdict,
    Error,
>)
    requires
        verifier.key matches Some(k) ==> k.wf(),
    ensures
        verifier.key is None ==> r == Err::<Verdict, Error>(Error::InvalidInput),
        verifier.key matches Some(k) ==> is_verdict(
            verifier.manifest@,
            verifier.settings,
            facts_for(k, verifier.settings),
            true,
            proof.proof_data@,
            r,
        ),
{
    let key = match &verifier.key {
        Some(k) => k,
        None => {
            return Err(Error::InvalidInput);
        },
    };
    let base = VerifierBase::new(verifier.settings, key.duplicate(), verifier.manifest.duplicate());
    proof {
        assert(key_facts(base.key) == facts_for(*key, verifier.settings));
    }
    verify_proof(&base, proof, &verifier.widgets)
}

impl<W: VerifierWidgets> Verifier<W> {
    /// The verifier of a circuit with the given relations: the
    /// verification key with the commitments to the polynomials that the
    /// proving key fixes, and the manifest of the variant that belongs to
    /// the kind of circuit.
    pub fn generate_verifier(
        circuit_proving_key: &ProvingKey,
        verifier_crs: VerifierMemReferenceString,
        widgets: W,
    ) -> (r: Result<Self, Error>)
        requires
            circuit_proving_key.wf(),
            verifier_crs.wf(),
            32 * circuit_proving_key.num_public_inputs <= usize::MAX,
        ensures
            r matches Ok(v) ==> {
                &&& v.key matches Some(k) && k.wf() && k.circuit_size
                    == circuit_proving_key.circuit_size && k.num_public_inputs
                    == circuit_proving_key.num_public_inputs && k.reference_string == verifier_crs
                    && Ok::<Map<Seq<char>, G1Point>, Error>(results_view(k.commitments@))
                    == key_commitments(
                    circuit_proving_key.polynomial_store,
                    points_view(circuit_proving_key.reference_string.monomials@),
                    k.polynomial_manifest@,
                    circuit_proving_key.circuit_size as nat,
                    k.polynomial_manifest@.len(),
                )
                &&& v.settings == spec_settings_of(circuit_proving_key.composer_type)
                &&& v.manifest@ == spec_manifest(
                    v.settings,
                    circuit_proving_key.num_public_inputs as nat,
                )
                &&& v.widgets == widgets
                &&& v.kate_g1_elements@ == Map::<Seq<char>, G1Affine>::empty()
                &&& v.kate_fr_elements@ == Map::<Seq<char>, Fr>::empty()
            },
            circuit_proving_key.circuit_size != 0
                && circuit_proving_key.reference_string.monomials@.len()
                >= circuit_proving_key.circuit_size ==> (match key_commitments(
                circuit_proving_key.polynomial_store,
                points_view(circuit_proving_key.reference_string.monomials@),
                spec_polynomials(spec_composer_of(circuit_proving_key.composer_type)),
                circuit_proving_key.circuit_size as nat,
                spec_polynomials(spec_composer_of(circuit_proving_key.composer_type)).len(),
            ) {
                Err(e) => r matches Err(f) && f == e,
                Ok(m) => r matches Ok(v) && v.key matches Some(k) && results_view(k.commitments@)
                    == m,
            }),
            circuit_proving_key.circuit_size == 0 ==> r matches Err(Error::InvalidInput),
            circuit_proving_key.circuit_size != 0
                && circuit_proving_key.reference_string.monomials@.len()
                < circuit_proving_key.circuit_size ==> r matches Err(Error::InsufficientSrs),
    {
        match generate_verifier(circuit_proving_key, verifier_crs) {
            Ok(base) => Ok(
                VerifierBaseImpl {
                    key: Some(base.key),
                    manifest: base.manifest,
                    kate_g1_elements: LabelMap::new(),
                    kate_fr_elements: LabelMap::new(),
                    commitment_scheme: KateCommitmentScheme::new(),
                    settings: base.settings,
                    widgets,
                },
            ),
            Err(e) => Err(e),
        }
    }

    /// Verifies a proof. A verifier without a key is an error; with a key
    /// the result is the verdict that `spec_verdict` gives for what the
    /// relations answered.
    pub fn verify_proof(&self, proof: &Proof) -> (r: Result<Verdict, Error>)
        requires
            self.key matches Some(k) ==> k.wf(),
        ensures
            self.key is None ==> r == Err::<Verdict, Error>(Error::InvalidInput),
            self.key matches Some(k) ==> is_verdict(
                self.manifest@,
                self.settings,
                facts_for(k, self.settings),
                true,
                proof.proof_data@,
                r,
            ),
    {
        run_verifier(self, proof)
    }
}

/// The proof without bytes fits the manifest of no variant: every variant
/// asks the prover for the commitment to the first wire. So a verifier
/// with such a manifest rejects the empty proof.
pub proof fn lemma_empty_proof_does_not_fit(settings: Settings, num_public_inputs: nat)
    ensures
        !proof_fits(spec_manifest(settings, num_public_inputs), Seq::empty()),
{
    reveal(spec_manifest);
    let manifest = spec_manifest(settings, num_public_inputs);
    let nothing = Seq::<u8>::empty();
    let sizes = manifest[0].2;
    let wires = manifest[1].2;
    let start = ProofParse { elements: Map::empty(), offset: 0, complete: true };
    // the sizes are derived by the verifier: nothing is read for them
    assert(parse_rounds(manifest, nothing, 0) == start);
    assert(parse_entries(sizes, nothing, 0, start) == start);
    assert(parse_entries(sizes, nothing, 1, start) == start);
    assert(parse_entries(sizes, nothing, 2, start) == start);
    assert(parse_rounds(manifest, nothing, 1) == start);
    // the first wire has 64 bytes
    assert(wires[1] == ("W_1"@, 64nat, false));
    let after_inputs = parse_entries(wires, nothing, 1, start);
    assert(parse_entries(wires, nothing, 0, start) == start);
    assert(!parse_entries(wires, nothing, 2, start).complete);
    lemma_parse_entries_fails(wires, nothing, 2, wires.len(), start);
    assert(!parse_rounds(manifest, nothing, 2).complete);
    lemma_parse_rounds_fails(manifest, nothing, 2, manifest.len());
}

} // verus!
