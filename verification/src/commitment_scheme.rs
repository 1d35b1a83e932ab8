//! The Kate commitment scheme: commitments are asked of the work queue,
//! openings are quotients by linear factors.

use crate::batch::{
    batch_commitment,
    batch_finish,
    batch_polynomials,
    batch_quotient,
    batch_step,
    batch_tail,
    batch_verify_spec,
    lemma_batch_polynomials_stays,
    lemma_batch_quotient_stays,
    quotient_label,
    BatchState,
};
use crate::bytes::{g1_to_bytes, spec_g1_bytes};
use crate::errors::Error;
use crate::field::{fr_modulus, mul_mod, sub_mod, Fr};
use crate::group::{g1_mul, G1Affine, G1Point};
use crate::msm::points_view;
use crate::opening_batch::{
    add_evaluations,
    evaluations_added,
    opening_inputs,
    parts_view,
    prepare_opening,
    spec_width_of,
    OpeningInputs,
    PolynomialForm,
    PreparedOpening,
};
use crate::pippenger::pippenger_sum;
use crate::proving_key::ProvingKey;
use crate::transcript::TranscriptState;
use crate::work_queue::{drained, first_failure};
use crate::label_map::LabelMap;
use crate::opening::{compute_opening_polynomial, open_in_place, opening_polynomial};
use crate::polynomial::{all_wf, fr_eval, fr_values, lemma_eval_step, Polynomial};
use crate::protocol::{read_challenge, read_point, read_scalar, tv_challenge};
use crate::settings::PolynomialSource;
use crate::transcript::Transcript;
use crate::verification_key::VerificationKey;
use crate::work_queue::{results_view, Work, WorkItem, WorkQueue};
use vstd::arithmetic::power::{lemma_pow0, lemma_pow1, lemma_pow_adds, pow};
use vstd::prelude::*;
use vstd::string::StringExecFns;

verus! {

/// The coefficients of degree `k` of the `m` polynomials of `n`
/// coefficients each that lie one behind the other in `src` from `base` on.
pub open spec fn column(src: Seq<int>, base: int, n: int, m: nat, k: int) -> Seq<int> {
    Seq::new(m, |j: int| src[base + j * n + k])
}

/// The combination of the `m` polynomials of `n` coefficients each that lie
/// in `src` from `base` on, the polynomial `j` weighted by `gamma^j`.
pub open spec fn folded_polynomial(src: Seq<int>, gamma: int, n: nat, m: nat, base: int) -> Seq<
    int,
> {
    Seq::new(n, |k: int| fr_eval(column(src, base, n as int, m, k), gamma))
}

/// The item that asks for the commitment to opened polynomial `i` of a
/// batch.
pub open spec fn batch_item(
    handle: usize,
    n: usize,
    tags: Seq<String>,
    constants: Seq<Fr>,
    i: int,
) -> WorkItem {
    WorkItem {
        work: Work::ScalarMultiplication {
            handle,
            offset: (i * n) as usize,
            size: n,
            constant: constants[i],
        },
        tag: tags[i],
    }
}

/// What opening has done where it succeeded: the two opening polynomials
/// are in the store under `opening_poly` and `shifted_opening_poly`, the
/// other labels hold what they held; the queue is drained, with the two
/// commitments under `PI_Z` and `PI_Z_OMEGA` behind the results of the
/// items that were pending; and the transcript holds the two commitments
/// under the same names.
pub open spec fn opened(
    inputs: OpeningInputs,
    transcript_before: TranscriptState,
    transcript_after: TranscriptState,
    queue_before: WorkQueue,
    queue_after: WorkQueue,
    store_before: crate::polynomial_store::PolynomialStore,
    store_after: crate::polynomial_store::PolynomialStore,
    srs: crate::reference_string::ProverReferenceString,
    n: int,
) -> bool {
    let monomials = points_view(srs.monomials@);
    let wz = opening_polynomial(inputs.combined, inputs.zeta);
    let wzo = opening_polynomial(inputs.shifted, inputs.zeta_omega);
    let pi_z = g1_mul(1, pippenger_sum(wz, monomials.take(n + 1)));
    let pi_z_omega = g1_mul(1, pippenger_sum(wzo, monomials.take(n)));
    &&& store_after.spec_contains("opening_poly"@)
    &&& store_after.spec_contains("shifted_opening_poly"@)
    &&& store_after.spec_get("opening_poly"@) == wz
    &&& store_after.spec_get("shifted_opening_poly"@) == wzo
    &&& forall|label: Seq<char>|
        label != "opening_poly"@ && label != "shifted_opening_poly"@ ==> {
            &&& store_after.spec_contains(label) == store_before.spec_contains(label)
            &&& store_after.polynomials@[label] == store_before.polynomials@[label]
        }
    &&& queue_after.items@.len() == 0
    &&& results_view(queue_after.results@) == drained(
        results_view(queue_before.results@),
        queue_before.items@,
        store_after,
        srs,
        queue_before.items@.len(),
    ).insert("PI_Z"@, pi_z).insert("PI_Z_OMEGA"@, pi_z_omega)
    &&& transcript_after == (TranscriptState {
        elements: transcript_before.elements.insert("PI_Z"@, spec_g1_bytes(pi_z)).insert(
            "PI_Z_OMEGA"@,
            spec_g1_bytes(pi_z_omega),
        ),
        ..transcript_before
    })
}

/// The form in which the polynomials of a key are taken.
pub open spec fn spec_form(key: &ProvingKey, in_lagrange_form: bool) -> PolynomialForm {
    if in_lagrange_form {
        PolynomialForm::Lagrange {
            size: key.small_domain.size as nat,
            root_inverse: key.small_domain.root_inverse@,
            size_inverse: key.small_domain.domain_inverse@,
        }
    } else {
        PolynomialForm::Coefficient
    }
}

/// The integers that a map of scalars stands for.
pub open spec fn scalars_view(m: Map<Seq<char>, Fr>) -> Map<Seq<char>, int> {
    m.map_values(|v: Fr| v@)
}

/// Labels are unique and every point has canonical coordinates.
pub open spec fn points_map_wf(m: LabelMap<G1Affine>) -> bool {
    &&& m.wf()
    &&& forall|i: int| 0 <= i < m.values@.len() ==> (#[trigger] m.values@[i]).wf()
}

/// Labels are unique and every scalar is canonical.
pub open spec fn scalars_map_wf(m: LabelMap<Fr>) -> bool {
    &&& m.wf()
    &&& forall|i: int| 0 <= i < m.values@.len() ==> (#[trigger] m.values@[i]).wf()
}

/// The accumulators as plain values.
pub open spec fn accumulators_view(
    points: LabelMap<G1Affine>,
    scalars: LabelMap<Fr>,
    batch_eval: int,
    shifted: nat,
) -> BatchState {
    BatchState {
        points: results_view(points@),
        scalars: scalars_view(scalars@),
        batch_eval,
        shifted,
    }
}

/// Puts a commitment and its scalar under a label.
fn insert_pair(
    points: &mut LabelMap<G1Affine>,
    scalars: &mut LabelMap<Fr>,
    label: &str,
    point: G1Affine,
    scalar: Fr,
)
    requires
        points_map_wf(*old(points)),
        scalars_map_wf(*old(scalars)),
        point.wf(),
        scalar.wf(),
    ensures
        points_map_wf(*final(points)),
        scalars_map_wf(*final(scalars)),
        results_view(final(points)@) == results_view(old(points)@).insert(label@, point@),
        scalars_view(final(scalars)@) == scalars_view(old(scalars)@).insert(label@, scalar@),
{
    points.insert(label, point);
    scalars.insert(label, scalar);
    proof {
        assert(results_view(points@) =~= results_view(old(points)@).insert(label@, point@));
        assert(scalars_view(scalars@) =~= scalars_view(old(scalars)@).insert(label@, scalar@));
    }
}

/// The label of part `i` of the quotient, counted from zero.
fn quotient_label_of(i: usize) -> (r: &'static str)
    ensures
        r@ == quotient_label(i as int),
{
    if i == 0 {
        "T_1"
    } else if i == 1 {
        "T_2"
    } else if i == 2 {
        "T_3"
    } else {
        "T_4"
    }
}

/// All scalars of the sequence are other than zero.
pub open spec fn all_nonzero(s: Seq<Fr>) -> bool {
    forall|i: int| 0 <= i < s.len() ==> (#[trigger] s[i])@ != 0
}

/// The Kate commitment scheme.
pub struct KateCommitmentScheme {}

impl KateCommitmentScheme {
    /// The scheme.
    pub fn new() -> (r: KateCommitmentScheme) {
        KateCommitmentScheme {  }
    }

    /// Asks for the commitment to `size` coefficients of the polynomial at
    /// `handle`, from `offset` on, multiplied by `item_constant`. The
    /// result is kept under `tag` once the queue is drained.
    pub fn commit(
        &mut self,
        handle: usize,
        offset: usize,
        size: usize,
        tag: String,
        item_constant: Fr,
        queue: &mut WorkQueue,
    )
        requires
            old(queue).wf(),
            item_constant.wf(),
        ensures
            final(queue).wf(),
            final(queue).items@ == old(queue).items@.push(
                WorkItem {
                    work: Work::ScalarMultiplication { handle, offset, size, constant: item_constant },
                    tag,
                },
            ),
            final(queue).results == old(queue).results,
            final(queue).fft_results == old(queue).fft_results,
    {
        queue.add_to_queue(
            WorkItem {
                work: Work::ScalarMultiplication { handle, offset, size, constant: item_constant },
                tag,
            },
        )
    }

    /// Writes to the first `n` coefficients of `dest` the opening polynomial
    /// at `z` of the polynomial `F` of the first `n` coefficients of `src`:
    /// `W(X) = (F(X) - F(z)) / (X - z)`.
    pub fn compute_opening_polynomial(&self, src: &[Fr], dest: &mut Vec<Fr>, z: &Fr, n: usize)
        requires
            all_wf(src@),
            all_wf(old(dest)@),
            1 <= n <= src@.len(),
            n <= old(dest)@.len(),
            z.wf(),
            z@ != 0,
        ensures
            all_wf(final(dest)@),
            final(dest)@.len() == old(dest)@.len(),
            fr_values(final(dest)@).take(n as int) == opening_polynomial(
                fr_values(src@).take(n as int),
                z@,
            ),
            forall|k: int| n <= k < old(dest)@.len() ==> final(dest)@[k] == old(dest)@[k],
            final(dest)@[n - 1]@ == 0,
            forall|r: int|
                mul_mod(
                    fr_eval(fr_values(final(dest)@).take(n as int), r),
                    sub_mod(r, z@, fr_modulus()),
                    fr_modulus(),
                ) == sub_mod(
                    fr_eval(fr_values(src@).take(n as int), r),
                    fr_eval(fr_values(src@).take(n as int), z@),
                    fr_modulus(),
                ),
    {
        compute_opening_polynomial(src, dest, z, n)
    }

    /// Opens `num_polynomials` polynomials at each of `num_z_points`
    /// points. The polynomials, of `n` coefficients each, lie in `src` one
    /// behind the other, those for the first point first. For point `i`
    /// they are combined with the powers of `challenges[i]`, the
    /// combination is opened at `z_points[i]`, the opening polynomial is
    /// written to `dest` from `i * n` on, and its commitment, multiplied by
    /// `item_constants[i]`, is asked for under `tags[i]`. The queue names
    /// `dest` by `dest_handle`. Of `z_points` and `challenges` the first
    /// `num_z_points` entries are read; for no points nothing changes.
    pub fn generic_batch_open(
        &mut self,
        src: &[Fr],
        dest: &mut Polynomial,
        dest_handle: usize,
        num_polynomials: usize,
        z_points: &[Fr],
        num_z_points: usize,
        challenges: &[Fr],
        n: usize,
        tags: &[String],
        item_constants: &[Fr],
        queue: &mut WorkQueue,
    )
        requires
            all_wf(src@),
            old(dest).wf(),
            all_wf(z_points@),
            all_wf(challenges@),
            all_wf(item_constants@),
            all_nonzero(z_points@.take(num_z_points as int)),
            old(queue).wf(),
            num_z_points == 0 || n >= 1,
            src@.len() == num_z_points * n * num_polynomials,
            z_points@.len() >= num_z_points,
            challenges@.len() >= num_z_points,
            tags@.len() == num_z_points,
            item_constants@.len() == num_z_points,
            old(dest)@.len() >= num_z_points * n,
        ensures
            final(dest).wf(),
            final(dest)@.len() == old(dest)@.len(),
            forall|i: int|
                0 <= i < num_z_points ==> #[trigger] final(dest)@.subrange(i * n, i * n + n)
                    == opening_polynomial(
                    folded_polynomial(
                        fr_values(src@),
                        challenges@[i]@,
                        n as nat,
                        num_polynomials as nat,
                        i * n * num_polynomials,
                    ),
                    z_points@[i]@,
                ),
            forall|k: int|
                num_z_points * n <= k < old(dest)@.len() ==> final(dest)@[k] == old(dest)@[k],
            final(queue).wf(),
            final(queue).results == old(queue).results,
            final(queue).items@ == old(queue).items@ + Seq::new(
                num_z_points as nat,
                |i: int| batch_item(dest_handle, n, tags@, item_constants@, i),
            ),
    {
        let ghost sv = fr_values(src@);
        let ghost p = fr_modulus();
        let m = num_polynomials;
        let length = dest.coefficients.len();
        let total = src.len();
        let mut i: usize = 0;
        proof {
            assert(queue.items@ =~= old(queue).items@ + Seq::new(
                0,
                |i: int| batch_item(dest_handle, n, tags@, item_constants@, i),
            ));
        }
        while i < num_z_points
            invariant
                i <= num_z_points,
                all_wf(src@),
                dest.wf(),
                all_wf(z_points@),
                all_wf(challenges@),
                all_wf(item_constants@),
                all_nonzero(z_points@.take(num_z_points as int)),
                queue.wf(),
                num_z_points == 0 || n >= 1,
                m == num_polynomials,
                src@.len() == num_z_points * n * num_polynomials,
                z_points@.len() >= num_z_points,
                challenges@.len() >= num_z_points,
                tags@.len() == num_z_points,
                item_constants@.len() == num_z_points,
                dest@.len() == old(dest)@.len(),
                dest@.len() == length,
                src@.len() == total,
                dest@.len() >= num_z_points * n,
                sv == fr_values(src@),
                p == fr_modulus(),
                forall|t: int|
                    0 <= t < i ==> #[trigger] dest@.subrange(t * n, t * n + n) == opening_polynomial(
                        folded_polynomial(sv, challenges@[t]@, n as nat, m as nat, t * n * m),
                        z_points@[t]@,
                    ),
                forall|k: int| i * n <= k < dest@.len() ==> dest@[k] == old(dest)@[k],
                queue.results == old(queue).results,
                queue.items@ == old(queue).items@ + Seq::new(
                    i as nat,
                    |t: int| batch_item(dest_handle, n, tags@, item_constants@, t),
                ),
            decreases num_z_points - i,
        {
            proof {
                lemma_batch_bounds(i as int, num_z_points as int, n as int, m as int);
            }
            let challenge = challenges[i];
            let src_offset = i * n * m;
            let dest_offset = i * n;
            let ghost gamma = challenge@;
            let ghost before = dest@;
            let ghost folded = folded_polynomial(sv, gamma, n as nat, m as nat, src_offset as int);
            let mut k: usize = 0;
            while k < n
                invariant
                    k <= n,
                    i < num_z_points,
                    n >= 1,
                    all_wf(src@),
                    dest.wf(),
                    challenge.wf(),
                    gamma == challenge@,
                    sv == fr_values(src@),
                    p == fr_modulus(),
                    src_offset == i * n * m,
                    dest_offset == i * n,
                    src_offset + n * m <= src@.len(),
                    src@.len() == total,
                    dest_offset + n <= dest@.len(),
                    dest@.len() == before.len(),
                    dest@.len() == length,
                    folded == folded_polynomial(sv, gamma, n as nat, m as nat, src_offset as int),
                    forall|c: int|
                        dest_offset <= c < dest_offset + k ==> #[trigger] dest@[c] == folded[c
                            - dest_offset],
                    forall|c: int|
                        0 <= c < dest@.len() && !(dest_offset <= c < dest_offset + k) ==> dest@[c]
                            == before[c],
                decreases n - k,
            {
                let ghost col = column(sv, src_offset as int, n as int, m as nat, k as int);
                let mut coeff_sum = Fr::zero();
                let mut challenge_pow = Fr::one();
                let mut j: usize = 0;
                proof {
                    lemma_pow0(gamma);
                }
                while j < m
                    invariant
                        j <= m,
                        k < n,
                        all_wf(src@),
                        challenge.wf(),
                        gamma == challenge@,
                        sv == fr_values(src@),
                        p == fr_modulus(),
                        src_offset + n * m <= src@.len(),
                        src@.len() == total,
                        col == column(sv, src_offset as int, n as int, m as nat, k as int),
                        coeff_sum.wf(),
                        challenge_pow.wf(),
                        coeff_sum@ == fr_eval(col.take(j as int), gamma),
                        challenge_pow@ == pow(gamma, j as nat) % p,
                    decreases m - j,
                {
                    proof {
                        lemma_column_index(j as int, k as int, n as int, m as int);
                    }
                    let term = challenge_pow.mul(&src[src_offset + (j * n) + k]);
                    proof {
                        assert(col[j as int] == src@[src_offset + j * n + k]@);
                        lemma_eval_step(col, j as int, gamma, coeff_sum@, challenge_pow@);
                    }
                    coeff_sum = coeff_sum.add(&term);
                    challenge_pow = challenge_pow.mul(&challenge);
                    j = j + 1;
                }
                proof {
                    assert(col.take(m as int) =~= col);
                    assert(folded[k as int] == fr_eval(col, gamma));
                }
                dest.set(dest_offset + k, coeff_sum);
                k = k + 1;
            }
            proof {
                assert(dest@.subrange(dest_offset as int, dest_offset + n) =~= folded);
            }
            proof {
                assert(z_points@.take(num_z_points as int)[i as int] == z_points@[i as int]);
            }
            open_in_place(&mut dest.coefficients, dest_offset, n, &z_points[i]);
            proof {
                assert forall|t: int| 0 <= t < i implies #[trigger] dest@.subrange(t * n, t * n + n)
                    == opening_polynomial(
                    folded_polynomial(sv, challenges@[t]@, n as nat, m as nat, t * n * m),
                    z_points@[t]@,
                ) by {
                    lemma_batch_bounds(t, num_z_points as int, n as int, m as int);
                    assert(t * n + n <= i * n) by (nonlinear_arith)
                        requires
                            t + 1 <= i,
                            n >= 0,
                    ;
                    assert(dest@.subrange(t * n, t * n + n) =~= before.subrange(t * n, t * n + n));
                }
                assert((i + 1) * n == i * n + n) by (nonlinear_arith);
            }
            let tag = tags[i].clone();
            let ghost items_before = queue.items@;
            self.commit(dest_handle, dest_offset, n, tag, item_constants[i], queue);
            proof {
                assert(queue.items@ =~= old(queue).items@ + Seq::new(
                    (i + 1) as nat,
                    |t: int| batch_item(dest_handle, n, tags@, item_constants@, t),
                ));
            }
            i = i + 1;
        }
    }

    /// Puts into the accumulators what the verifier has to combine: for
    /// every polynomial of the key's manifest its commitment and scalar,
    /// for the quotient its parts, the generator for the combined
    /// evaluation, and the two opening proofs. What the transcript lacks is
    /// a protocol error; an element that spells no point of the curve or no
    /// scalar makes the proof invalid. After a failure the accumulators are
    /// still maps with unique labels and canonical values; which entries
    /// they have by then is left open.
    pub fn batch_verify(
        &self,
        transcript: &Transcript,
        kate_g1_elements: &mut LabelMap<G1Affine>,
        kate_fr_elements: &mut LabelMap<Fr>,
        key: &VerificationKey,
    ) -> (r: Result<(), Error>)
        requires
            transcript.wf(),
            key.wf(),
            points_map_wf(*old(kate_g1_elements)),
            scalars_map_wf(*old(kate_fr_elements)),
        ensures
            points_map_wf(*final(kate_g1_elements)),
            scalars_map_wf(*final(kate_fr_elements)),
            r is Ok <==> batch_verify_spec(
                transcript@,
                results_view(key.commitments@),
                key.polynomial_manifest@,
                key.circuit_size as nat,
                key.program_width as nat,
                key.domain.root@,
                accumulators_view(*old(kate_g1_elements), *old(kate_fr_elements), 0, 0),
            ) is Ok,
            r matches Err(e) ==> Err::<BatchState, Error>(e) == batch_verify_spec(
                transcript@,
                results_view(key.commitments@),
                key.polynomial_manifest@,
                key.circuit_size as nat,
                key.program_width as nat,
                key.domain.root@,
                accumulators_view(*old(kate_g1_elements), *old(kate_fr_elements), 0, 0),
            ),
            r is Ok ==> ({
                let s = batch_verify_spec(
                    transcript@,
                    results_view(key.commitments@),
                    key.polynomial_manifest@,
                    key.circuit_size as nat,
                    key.program_width as nat,
                    key.domain.root@,
                    accumulators_view(*old(kate_g1_elements), *old(kate_fr_elements), 0, 0),
                ).unwrap();
                results_view(final(kate_g1_elements)@) == s.points && scalars_view(
                    final(kate_fr_elements)@,
                ) == s.scalars
            }),
    {
        let width = key.program_width;
        if width != 3 && width != 4 {
            return Err(Error::ProtocolError);
        }
        let zeta = match read_challenge(transcript, "z", 0) {
            Ok(v) => v,
            Err(e) => {
                return Err(e);
            },
        };
        let separator = match read_challenge(transcript, "separator", 0) {
            Ok(v) => v,
            Err(e) => {
                return Err(e);
            },
        };
        let (batch_eval, shifted) = match batch_polynomials_exec(
            transcript,
            kate_g1_elements,
            kate_fr_elements,
            key,
            &separator,
        ) {
            Ok(v) => v,
            Err(e) => {
                return Err(e);
            },
        };
        batch_tail_exec(
            transcript,
            kate_g1_elements,
            kate_fr_elements,
            key,
            &zeta,
            &separator,
            &batch_eval,
            shifted,
        )
    }

    /// Adds to the transcript the values of the polynomials of a circuit at
    /// the challenge point `z` and, for those that are opened there too, at
    /// that point times the root of the domain. The polynomials are taken
    /// from the store of the key by their coefficients or, in Lagrange
    /// form, by their values on the domain of the circuit, which the store
    /// holds under the labels followed by `_lagrange`.
    pub fn add_opening_evaluations_to_transcript(
        &self,
        transcript: &mut Transcript,
        input_key: &ProvingKey,
        in_lagrange_form: bool,
    ) -> (r: Result<(), Error>)
        requires
            old(transcript).wf(),
            input_key.wf(),
        ensures
            final(transcript).wf(),
            final(transcript)@.manifest == old(transcript)@.manifest,
            final(transcript)@.challenges == old(transcript)@.challenges,
            final(transcript)@.current_round == old(transcript)@.current_round,
            final(transcript)@.current_challenge == old(transcript)@.current_challenge,
            final(transcript)@.hash_type == old(transcript)@.hash_type,
            final(transcript)@.num_challenge_bytes == old(transcript)@.num_challenge_bytes,
            match tv_challenge(old(transcript)@, "z"@, 0) {
                Err(e) => r == Err::<(), Error>(e) && final(transcript)@ == old(transcript)@,
                Ok(zeta) => match evaluations_added(
                    old(transcript)@.elements,
                    input_key.polynomial_store,
                    input_key.polynomial_manifest@,
                    spec_form(input_key, in_lagrange_form),
                    zeta,
                    mul_mod(zeta, input_key.small_domain.root@, fr_modulus()),
                    input_key.polynomial_manifest@.len(),
                ) {
                    Err(e) => r == Err::<(), Error>(e),
                    Ok(elements) => r is Ok && final(transcript)@.elements == elements,
                },
            },
    {
        let zeta = match read_challenge(transcript, "z", 0) {
            Ok(v) => v,
            Err(e) => {
                return Err(e);
            },
        };
        let zeta_omega = zeta.mul(&input_key.small_domain.root);
        let domain = if in_lagrange_form {
            Some(&input_key.small_domain)
        } else {
            None
        };
        add_evaluations(
            transcript,
            &input_key.polynomial_store,
            &input_key.polynomial_manifest,
            domain,
            &zeta,
            &zeta_omega,
        )
    }

    /// Opens the polynomials of a circuit: combines them into the two
    /// polynomials that are opened at the challenge point and at the
    /// challenge point times the root of the domain, puts the two opening
    /// polynomials into the store of the key under `opening_poly` and
    /// `shifted_opening_poly`, commits to them, drains the queue, and adds
    /// the two commitments to the transcript as `PI_Z` and `PI_Z_OMEGA`.
    pub fn batch_open(
        &mut self,
        transcript: &mut Transcript,
        queue: &mut WorkQueue,
        key: &mut ProvingKey,
    ) -> (r: Result<(), Error>)
        requires
            old(transcript).wf(),
            old(queue).wf(),
            old(key).wf(),
            2 * old(key).polynomial_manifest@.len() <= usize::MAX,
        ensures
            final(transcript).wf(),
            final(queue).wf(),
            final(key).wf(),
            final(key).circuit_size == old(key).circuit_size,
            final(key).composer_type == old(key).composer_type,
            final(key).num_public_inputs == old(key).num_public_inputs,
            final(key).reference_string == old(key).reference_string,
            final(key).polynomial_manifest == old(key).polynomial_manifest,
            final(key).small_domain == old(key).small_domain,
            final(key).large_domain == old(key).large_domain,
            final(key).quotient_polynomial_parts == old(key).quotient_polynomial_parts,
            opening_inputs(
                old(transcript)@,
                old(key).polynomial_store,
                old(key).polynomial_manifest@,
                parts_view(old(key).quotient_polynomial_parts@),
                old(key).circuit_size as nat,
                spec_width_of(old(key).composer_type),
                old(key).small_domain.root@,
            ) matches Err(e) ==> {
                &&& r == Err::<(), Error>(e)
                &&& final(transcript)@ == old(transcript)@
                &&& final(queue).items == old(queue).items
                &&& final(queue).results == old(queue).results
                &&& final(key).polynomial_store == old(key).polynomial_store
            },
            opening_inputs(
                old(transcript)@,
                old(key).polynomial_store,
                old(key).polynomial_manifest@,
                parts_view(old(key).quotient_polynomial_parts@),
                old(key).circuit_size as nat,
                spec_width_of(old(key).composer_type),
                old(key).small_domain.root@,
            ) matches Ok(inputs) ==> {
                let n = old(key).circuit_size as int;
                let count = old(key).reference_string.monomials@.len();
                &&& count <= n ==> r == Err::<(), Error>(Error::InsufficientSrs)
                &&& count > n && old(queue).items@.len() == 0 ==> r is Ok
                &&& r is Ok ==> opened(
                    inputs,
                    old(transcript)@,
                    final(transcript)@,
                    *old(queue),
                    *final(queue),
                    old(key).polynomial_store,
                    final(key).polynomial_store,
                    old(key).reference_string,
                    n,
                )
            },
    {
        let prepared = match prepare_opening(transcript, key) {
            Ok(v) => v,
            Err(e) => {
                return Err(e);
            },
        };
        proof {
            crate::opening_batch::lemma_opening_lengths(
                transcript@,
                key.polynomial_store,
                key.polynomial_manifest@,
                parts_view(key.quotient_polynomial_parts@),
                key.circuit_size as nat,
                spec_width_of(key.composer_type),
                key.small_domain.root@,
            );
        }
        open_and_commit(
            transcript,
            queue,
            &mut key.polynomial_store,
            &key.reference_string,
            &mut key.pippenger_runtime_state,
            key.circuit_size,
            prepared,
        )
    }
}

/// Opens the two combinations, puts the opening polynomials into the store,
/// commits to them, drains the queue, and adds the two commitments to the
/// transcript.
fn open_and_commit(
    transcript: &mut Transcript,
    queue: &mut WorkQueue,
    store: &mut crate::polynomial_store::PolynomialStore,
    srs: &crate::reference_string::ProverReferenceString,
    state: &mut crate::pippenger::PippengerRuntimeState,
    n: usize,
    prepared: PreparedOpening,
) -> (r: Result<(), Error>)
    requires
        old(transcript).wf(),
        old(queue).wf(),
        old(store).wf(),
        srs.wf(),
        prepared.wf(),
        prepared@.combined.len() == n + 1,
        prepared@.shifted.len() == n,
        n >= 1,
        prepared@.zeta != 0,
        prepared@.zeta_omega != 0,
    ensures
        final(transcript).wf(),
        final(queue).wf(),
        final(store).wf(),
        srs.monomials@.len() <= n ==> r == Err::<(), Error>(Error::InsufficientSrs),
        srs.monomials@.len() > n && old(queue).items@.len() == 0 ==> r is Ok,
        r is Ok ==> opened(
            prepared@,
            old(transcript)@,
            final(transcript)@,
            *old(queue),
            *final(queue),
            *old(store),
            *final(store),
            *srs,
            n as int,
        ),
{
    if srs.get_monomial_size() <= n {
        return Err(Error::InsufficientSrs);
    }
    let ghost inputs = prepared@;
    let PreparedOpening { zeta, zeta_omega, combined, shifted } = prepared;
    let mut combined = combined;
    let mut shifted = shifted;
    proof {
        assert(fr_values(combined@).subrange(0, n + 1) =~= inputs.combined);
        assert(fr_values(shifted@).subrange(0, n as int) =~= inputs.shifted);
    }
    open_in_place(&mut combined, 0, n + 1, &zeta);
    open_in_place(&mut shifted, 0, n, &zeta_omega);
    proof {
        assert(fr_values(combined@).subrange(0, n + 1) =~= fr_values(combined@));
        assert(fr_values(shifted@).subrange(0, n as int) =~= fr_values(shifted@));
    }
    let (first, second) = put_openings(store, combined, shifted);
    let (pi_z, pi_z_omega) = match commit_openings(queue, store, srs, state, n, first, second) {
        Ok(v) => v,
        Err(e) => {
            return Err(e);
        },
    };
    transcript.add_element("PI_Z", g1_to_bytes(&pi_z));
    transcript.add_element("PI_Z_OMEGA", g1_to_bytes(&pi_z_omega));
    Ok(())
}

/// Puts the two opening polynomials into a store and returns their
/// handles.
fn put_openings(store: &mut crate::polynomial_store::PolynomialStore, wz: Vec<Fr>, wzo: Vec<Fr>) -> (r:
    (usize, usize))
    requires
        old(store).wf(),
        all_wf(wz@),
        all_wf(wzo@),
    ensures
        final(store).wf(),
        r.0 < final(store).spec_len(),
        r.1 < final(store).spec_len(),
        final(store).spec_coefficients(r.0 as int) == fr_values(wz@),
        final(store).spec_coefficients(r.1 as int) == fr_values(wzo@),
        final(store).spec_contains("opening_poly"@),
        final(store).spec_contains("shifted_opening_poly"@),
        final(store).spec_get("opening_poly"@) == fr_values(wz@),
        final(store).spec_get("shifted_opening_poly"@) == fr_values(wzo@),
        forall|label: Seq<char>|
            label != "opening_poly"@ && label != "shifted_opening_poly"@ ==> {
                &&& final(store).spec_contains(label) == old(store).spec_contains(label)
                &&& final(store).polynomials@[label] == old(store).polynomials@[label]
            },
{
    proof {
        reveal_strlit("opening_poly");
        reveal_strlit("shifted_opening_poly");
        assert("opening_poly"@.len() == 12);
        assert("shifted_opening_poly"@.len() == 20);
        assert("opening_poly"@ != "shifted_opening_poly"@);
    }
    let first = store.put("opening_poly", Polynomial::from_coefficients(wz));
    let ghost mid = *store;
    let second = store.put("shifted_opening_poly", Polynomial::from_coefficients(wzo));
    proof {
        assert(store.polynomials.keys@[first as int] == mid.polynomials.keys@[first as int]);
        assert(first != second);
        assert(store.polynomials.values@[first as int] == mid.polynomials.values@[first as int]);
        assert(mid.polynomials@.contains_key("opening_poly"@));
        assert(store.polynomials@.contains_key("opening_poly"@));
    }
    (first, second)
}

/// Asks for the commitments to the two opening polynomials, drains the
/// queue, and returns the two commitments.
fn commit_openings(
    queue: &mut WorkQueue,
    store: &crate::polynomial_store::PolynomialStore,
    srs: &crate::reference_string::ProverReferenceString,
    state: &mut crate::pippenger::PippengerRuntimeState,
    n: usize,
    first: usize,
    second: usize,
) -> (r: Result<(G1Affine, G1Affine), Error>)
    requires
        old(queue).wf(),
        store.wf(),
        srs.wf(),
        first < store.spec_len(),
        second < store.spec_len(),
        store.spec_coefficients(first as int).len() == n + 1,
        store.spec_coefficients(second as int).len() == n,
        srs.monomials@.len() > n,
    ensures
        final(queue).wf(),
        old(queue).items@.len() == 0 ==> r is Ok,
        r matches Ok(v) ==> {
            let monomials = points_view(srs.monomials@);
            &&& v.0.wf()
            &&& v.1.wf()
            &&& v.0@ == g1_mul(
                1,
                pippenger_sum(store.spec_coefficients(first as int), monomials.take(n + 1)),
            )
            &&& v.1@ == g1_mul(
                1,
                pippenger_sum(store.spec_coefficients(second as int), monomials.take(n as int)),
            )
            &&& final(queue).items@.len() == 0
            &&& results_view(final(queue).results@) == drained(
                results_view(old(queue).results@),
                old(queue).items@,
                *store,
                *srs,
                old(queue).items@.len(),
            ).insert("PI_Z"@, v.0@).insert("PI_Z_OMEGA"@, v.1@)
        },
{
    let ghost items0 = queue.items@;
    let ghost results0 = results_view(queue.results@);
    proof {
        reveal_strlit("PI_Z");
        reveal_strlit("PI_Z_OMEGA");
        assert("PI_Z"@.len() == 4);
        assert("PI_Z_OMEGA"@.len() == 10);
        assert("PI_Z"@ != "PI_Z_OMEGA"@);
    }
    let tag_z = "PI_Z".to_owned();
    let tag_z_omega = "PI_Z_OMEGA".to_owned();
    let size_z = store.polynomial(first).size();
    let item_z = WorkItem {
        work: Work::ScalarMultiplication { handle: first, offset: 0, size: size_z, constant: Fr::one() },
        tag: tag_z,
    };
    let item_z_omega = WorkItem {
        work: Work::ScalarMultiplication { handle: second, offset: 0, size: n, constant: Fr::one() },
        tag: tag_z_omega,
    };
    proof {
        assert(crate::work_queue::item_scalars(item_z, *store) =~= store.spec_coefficients(
            first as int,
        ));
        assert(crate::work_queue::item_scalars(item_z_omega, *store) =~= store.spec_coefficients(
            second as int,
        ));
    }
    let ghost result_z = crate::work_queue::item_result(item_z, *store, *srs);
    let ghost result_z_omega = crate::work_queue::item_result(item_z_omega, *store, *srs);
    queue.add_to_queue(item_z);
    queue.add_to_queue(item_z_omega);
    let ghost items = queue.items@;
    proof {
        assert(items[items0.len() as int] == item_z);
        assert(items[items0.len() as int + 1] == item_z_omega);
        lemma_two_more_items(results0, items, *store, *srs, items0.len());
        lemma_drained_prefix(results0, items0, items, *store, *srs, items0.len());
        if items0.len() == 0 {
            assert(first_failure(items, *store, *srs, 0) is None);
            assert(first_failure(items, *store, *srs, 1) is None);
            assert(first_failure(items, *store, *srs, 2) is None);
        }
    }
    match queue.process_queue(store, srs, state) {
        Ok(()) => {},
        Err(e) => {
            return Err(e);
        },
    }
    proof {
        let m = drained(results0, items0, *store, *srs, items0.len());
        assert(results_view(queue.results@) == m.insert("PI_Z"@, result_z).insert(
            "PI_Z_OMEGA"@,
            result_z_omega,
        ));
        assert(results_view(queue.results@).contains_key("PI_Z"@));
        assert(results_view(queue.results@).contains_key("PI_Z_OMEGA"@));
        assert(queue.results@.contains_key("PI_Z"@));
        assert(queue.results@.contains_key("PI_Z_OMEGA"@));
        assert(results_view(queue.results@)["PI_Z"@] == result_z);
        assert(results_view(queue.results@)["PI_Z_OMEGA"@] == result_z_omega);
    }
    let pi_z = match queue.get_result("PI_Z") {
        Some(p) => p,
        None => G1Affine::identity(),
    };
    let pi_z_omega = match queue.get_result("PI_Z_OMEGA") {
        Some(p) => p,
        None => G1Affine::identity(),
    };
    proof {
        assert(pi_z@ == result_z);
        assert(pi_z_omega@ == result_z_omega);
        assert(result_z == g1_mul(
            1,
            pippenger_sum(
                store.spec_coefficients(first as int),
                points_view(srs.monomials@).take(n + 1),
            ),
        ));
    }
    Ok((pi_z, pi_z_omega))
}

/// Draining the first items of a queue does not depend on the items behind
/// them.
pub proof fn lemma_drained_prefix(
    before: Map<Seq<char>, G1Point>,
    items: Seq<WorkItem>,
    longer: Seq<WorkItem>,
    store: crate::polynomial_store::PolynomialStore,
    srs: crate::reference_string::ProverReferenceString,
    k: nat,
)
    requires
        k <= items.len() <= longer.len(),
        forall|i: int| 0 <= i < items.len() ==> items[i] == longer[i],
    ensures
        drained(before, items, store, srs, k) == drained(before, longer, store, srs, k),
    decreases k,
{
    if k > 0 {
        lemma_drained_prefix(before, items, longer, store, srs, (k - 1) as nat);
    }
}

/// Draining two more items puts their two results behind those of the
/// items before them.
pub proof fn lemma_two_more_items(
    before: Map<Seq<char>, G1Point>,
    items: Seq<WorkItem>,
    store: crate::polynomial_store::PolynomialStore,
    srs: crate::reference_string::ProverReferenceString,
    k: nat,
)
    requires
        items.len() == k + 2,
        items[k as int].work is ScalarMultiplication,
        items[k as int + 1].work is ScalarMultiplication,
    ensures
        drained(before, items, store, srs, k + 2) == drained(before, items, store, srs, k).insert(
            items[k as int].tag@,
            crate::work_queue::item_result(items[k as int], store, srs),
        ).insert(
            items[k as int + 1].tag@,
            crate::work_queue::item_result(items[k as int + 1], store, srs),
        ),
{
    assert(drained(before, items, store, srs, k + 2) == drained(
        before,
        items,
        store,
        srs,
        (k + 1) as nat,
    ).insert(items[k as int + 1].tag@, crate::work_queue::item_result(items[k as int + 1], store, srs)));
}

/// Puts into the accumulators what comes behind the polynomials: the parts
/// of the quotient, the generator and the opening proofs.
fn batch_tail_exec(
    transcript: &Transcript,
    kate_g1_elements: &mut LabelMap<G1Affine>,
    kate_fr_elements: &mut LabelMap<Fr>,
    key: &VerificationKey,
    zeta: &Fr,
    separator: &Fr,
    batch_eval: &Fr,
    shifted: usize,
) -> (r: Result<(), Error>)
    requires
        transcript.wf(),
        key.wf(),
        key.program_width == 3 || key.program_width == 4,
        points_map_wf(*old(kate_g1_elements)),
        scalars_map_wf(*old(kate_fr_elements)),
        zeta.wf(),
        separator.wf(),
        batch_eval.wf(),
        shifted <= key.polynomial_manifest@.len(),
    ensures
        points_map_wf(*final(kate_g1_elements)),
        scalars_map_wf(*final(kate_fr_elements)),
        r is Ok ==> ({
            let s = batch_tail(
                transcript@,
                key.polynomial_manifest@.len(),
                key.circuit_size as nat,
                key.program_width as nat,
                key.domain.root@,
                zeta@,
                separator@,
                accumulators_view(
                    *old(kate_g1_elements),
                    *old(kate_fr_elements),
                    batch_eval@,
                    shifted as nat,
                ),
            );
            s is Ok && results_view(final(kate_g1_elements)@) == s.unwrap().points && scalars_view(
                final(kate_fr_elements)@,
            ) == s.unwrap().scalars
        }),
        r matches Err(e) ==> batch_tail(
            transcript@,
            key.polynomial_manifest@.len(),
            key.circuit_size as nat,
            key.program_width as nat,
            key.domain.root@,
            zeta@,
            separator@,
            accumulators_view(
                *old(kate_g1_elements),
                *old(kate_fr_elements),
                batch_eval@,
                shifted as nat,
            ),
        ) == Err::<BatchState, Error>(e),
{
    let count = key.polynomial_manifest.entries.len();
    let nu = match read_challenge(transcript, "nu", count + shifted) {
        Ok(v) => v,
        Err(e) => {
            return Err(e);
        },
    };
    let zeta_n = zeta.pow(key.circuit_size as u64);
    match batch_quotient_exec(
        transcript,
        kate_g1_elements,
        kate_fr_elements,
        &nu,
        &zeta_n,
        key.program_width,
        Ghost(batch_eval@),
        Ghost(shifted as nat),
    ) {
        Ok(()) => {},
        Err(e) => {
            return Err(e);
        },
    }
    batch_finish_exec(
        transcript,
        kate_g1_elements,
        kate_fr_elements,
        &nu,
        zeta,
        separator,
        &key.domain.root,
        batch_eval,
        Ghost(shifted as nat),
    )
}

/// Puts the generator and the opening proofs into the accumulators.
fn batch_finish_exec(
    transcript: &Transcript,
    kate_g1_elements: &mut LabelMap<G1Affine>,
    kate_fr_elements: &mut LabelMap<Fr>,
    nu: &Fr,
    zeta: &Fr,
    separator: &Fr,
    root: &Fr,
    batch_eval: &Fr,
    Ghost(shifted): Ghost<nat>,
) -> (r: Result<(), Error>)
    requires
        transcript.wf(),
        points_map_wf(*old(kate_g1_elements)),
        scalars_map_wf(*old(kate_fr_elements)),
        nu.wf(),
        zeta.wf(),
        separator.wf(),
        root.wf(),
        batch_eval.wf(),
    ensures
        points_map_wf(*final(kate_g1_elements)),
        scalars_map_wf(*final(kate_fr_elements)),
        r is Ok ==> ({
            let s = batch_finish(
                transcript@,
                nu@,
                zeta@,
                separator@,
                root@,
                accumulators_view(
                    *old(kate_g1_elements),
                    *old(kate_fr_elements),
                    batch_eval@,
                    shifted,
                ),
            );
            s is Ok && results_view(final(kate_g1_elements)@) == s.unwrap().points && scalars_view(
                final(kate_fr_elements)@,
            ) == s.unwrap().scalars
        }),
        r matches Err(e) ==> batch_finish(
            transcript@,
            nu@,
            zeta@,
            separator@,
            root@,
            accumulators_view(*old(kate_g1_elements), *old(kate_fr_elements), batch_eval@, shifted),
        ) == Err::<BatchState, Error>(e),
{
    let t = match read_scalar(transcript, "t") {
        Ok(v) => v,
        Err(e) => {
            return Err(e);
        },
    };
    let pi_z = match read_point(transcript, "PI_Z") {
        Ok(c) => c,
        Err(e) => {
            return Err(e);
        },
    };
    let pi_z_omega = match read_point(transcript, "PI_Z_OMEGA") {
        Ok(c) => c,
        Err(e) => {
            return Err(e);
        },
    };
    let eval = batch_eval.add(&nu.mul(&t));
    insert_pair(
        kate_g1_elements,
        kate_fr_elements,
        "BATCH_EVALUATION",
        G1Affine::generator(),
        eval.neg(),
    );
    insert_pair(kate_g1_elements, kate_fr_elements, "PI_Z", pi_z, *zeta);
    insert_pair(
        kate_g1_elements,
        kate_fr_elements,
        "PI_Z_OMEGA",
        pi_z_omega,
        separator.mul(zeta).mul(root),
    );
    Ok(())
}

/// Puts polynomial `i` of the key's manifest into the accumulators and
/// returns the combined evaluation and the number of shifted evaluations
/// after it.
fn batch_step_exec(
    transcript: &Transcript,
    kate_g1_elements: &mut LabelMap<G1Affine>,
    kate_fr_elements: &mut LabelMap<Fr>,
    key: &VerificationKey,
    separator: &Fr,
    batch_eval: &Fr,
    shifted: usize,
    i: usize,
) -> (r: Result<(Fr, usize), Error>)
    requires
        transcript.wf(),
        key.wf(),
        points_map_wf(*old(kate_g1_elements)),
        scalars_map_wf(*old(kate_fr_elements)),
        separator.wf(),
        batch_eval.wf(),
        i < key.polynomial_manifest@.len(),
        shifted <= i,
    ensures
        points_map_wf(*final(kate_g1_elements)),
        scalars_map_wf(*final(kate_fr_elements)),
        r matches Ok(v) ==> v.0.wf() && v.1 <= i + 1 && batch_step(
            transcript@,
            results_view(key.commitments@),
            key.polynomial_manifest@,
            separator@,
            accumulators_view(
                *old(kate_g1_elements),
                *old(kate_fr_elements),
                batch_eval@,
                shifted as nat,
            ),
            i as int,
        ) == Ok::<BatchState, Error>(
            accumulators_view(*final(kate_g1_elements), *final(kate_fr_elements), v.0@, v.1 as nat),
        ),
        r matches Err(e) ==> batch_step(
            transcript@,
            results_view(key.commitments@),
            key.polynomial_manifest@,
            separator@,
            accumulators_view(
                *old(kate_g1_elements),
                *old(kate_fr_elements),
                batch_eval@,
                shifted as nat,
            ),
            i as int,
        ) == Err::<BatchState, Error>(e),
{
    let ghost tv = transcript@;
    let ghost cv = results_view(key.commitments@);
    let ghost pv = key.polynomial_manifest@;
    let count = key.polynomial_manifest.entries.len();
    let d = &key.polynomial_manifest.entries[i];
    proof {
        reveal(batch_step);
        assert(pv[i as int] == (
            d.commitment_label@,
            d.polynomial_label@,
            d.requires_shifted_evaluation,
            d.source,
        ));
    }
    let commitment = match d.source {
        PolynomialSource::Witness => match read_point(transcript, d.commitment_label.as_str()) {
            Ok(c) => c,
            Err(e) => {
                return Err(e);
            },
        },
        _ => match key.commitments.find(d.commitment_label.as_str()) {
            Some(h) => key.commitments.values[h],
            None => {
                return Err(Error::ProtocolError);
            },
        },
    };
    proof {
        assert(batch_commitment(tv, cv, d.commitment_label@, d.source) == Ok::<G1Point, Error>(
            commitment@,
        ));
    }
    let nu = match read_challenge(transcript, "nu", i) {
        Ok(v) => v,
        Err(e) => {
            return Err(e);
        },
    };
    let value = match read_scalar(transcript, d.polynomial_label.as_str()) {
        Ok(v) => v,
        Err(e) => {
            return Err(e);
        },
    };
    let eval = batch_eval.add(&nu.mul(&value));
    if d.requires_shifted_evaluation {
        let nu_shifted = match read_challenge(transcript, "nu", count + shifted) {
            Ok(v) => v,
            Err(e) => {
                return Err(e);
            },
        };
        let label = d.polynomial_label.clone().concat("_omega");
        let value_shifted = match read_scalar(transcript, label.as_str()) {
            Ok(v) => v,
            Err(e) => {
                return Err(e);
            },
        };
        let weight = separator.mul(&nu_shifted);
        insert_pair(
            kate_g1_elements,
            kate_fr_elements,
            d.commitment_label.as_str(),
            commitment,
            nu.add(&weight),
        );
        Ok((eval.add(&weight.mul(&value_shifted)), shifted + 1))
    } else {
        insert_pair(
            kate_g1_elements,
            kate_fr_elements,
            d.commitment_label.as_str(),
            commitment,
            nu,
        );
        Ok((eval, shifted))
    }
}

/// Puts every polynomial of the key's manifest into the accumulators and
/// returns the combined evaluation and the number of shifted evaluations.
fn batch_polynomials_exec(
    transcript: &Transcript,
    kate_g1_elements: &mut LabelMap<G1Affine>,
    kate_fr_elements: &mut LabelMap<Fr>,
    key: &VerificationKey,
    separator: &Fr,
) -> (r: Result<(Fr, usize), Error>)
    requires
        transcript.wf(),
        key.wf(),
        points_map_wf(*old(kate_g1_elements)),
        scalars_map_wf(*old(kate_fr_elements)),
        separator.wf(),
    ensures
        points_map_wf(*final(kate_g1_elements)),
        scalars_map_wf(*final(kate_fr_elements)),
        r matches Ok(v) ==> v.0.wf() && v.1 <= key.polynomial_manifest@.len()
            && batch_polynomials(
            transcript@,
            results_view(key.commitments@),
            key.polynomial_manifest@,
            separator@,
            accumulators_view(*old(kate_g1_elements), *old(kate_fr_elements), 0, 0),
            key.polynomial_manifest@.len(),
        ) == Ok::<BatchState, Error>(
            accumulators_view(*final(kate_g1_elements), *final(kate_fr_elements), v.0@, v.1 as nat),
        ),
        r matches Err(e) ==> batch_polynomials(
            transcript@,
            results_view(key.commitments@),
            key.polynomial_manifest@,
            separator@,
            accumulators_view(*old(kate_g1_elements), *old(kate_fr_elements), 0, 0),
            key.polynomial_manifest@.len(),
        ) == Err::<BatchState, Error>(e),
{
    let ghost tv = transcript@;
    let ghost cv = results_view(key.commitments@);
    let ghost pv = key.polynomial_manifest@;
    let ghost start = accumulators_view(*kate_g1_elements, *kate_fr_elements, 0, 0);
    let count = key.polynomial_manifest.entries.len();
    let mut batch_eval = Fr::zero();
    let mut shifted: usize = 0;
    let mut i: usize = 0;
    while i < count
        invariant
            i <= count,
            count == pv.len(),
            shifted <= i,
            transcript.wf(),
            key.wf(),
            points_map_wf(*kate_g1_elements),
            scalars_map_wf(*kate_fr_elements),
            batch_eval.wf(),
            separator.wf(),
            tv == transcript@,
            cv == results_view(key.commitments@),
            pv == key.polynomial_manifest@,
            start == accumulators_view(*old(kate_g1_elements), *old(kate_fr_elements), 0, 0),
            batch_polynomials(tv, cv, pv, separator@, start, i as nat) == Ok::<BatchState, Error>(
                accumulators_view(
                    *kate_g1_elements,
                    *kate_fr_elements,
                    batch_eval@,
                    shifted as nat,
                ),
            ),
        decreases count - i,
    {
        let ghost before = accumulators_view(
            *kate_g1_elements,
            *kate_fr_elements,
            batch_eval@,
            shifted as nat,
        );
        proof {
            assert(batch_polynomials(tv, cv, pv, separator@, start, (i + 1) as nat) == batch_step(
                tv,
                cv,
                pv,
                separator@,
                before,
                i as int,
            ));
        }
        match batch_step_exec(
            transcript,
            kate_g1_elements,
            kate_fr_elements,
            key,
            separator,
            &batch_eval,
            shifted,
            i,
        ) {
            Ok(v) => {
                batch_eval = v.0;
                shifted = v.1;
            },
            Err(e) => {
                proof {
                    lemma_batch_polynomials_stays(
                        tv,
                        cv,
                        pv,
                        separator@,
                        start,
                        (i + 1) as nat,
                        pv.len(),
                    );
                }
                return Err(e);
            },
        }
        i = i + 1;
    }
    Ok((batch_eval, shifted))
}

/// Puts the parts of the quotient into the accumulators: part `i` with the
/// scalar `nu * zeta_n^i`.
fn batch_quotient_exec(
    transcript: &Transcript,
    kate_g1_elements: &mut LabelMap<G1Affine>,
    kate_fr_elements: &mut LabelMap<Fr>,
    nu: &Fr,
    zeta_n: &Fr,
    width: usize,
    Ghost(batch_eval): Ghost<int>,
    Ghost(shifted): Ghost<nat>,
) -> (r: Result<(), Error>)
    requires
        transcript.wf(),
        points_map_wf(*old(kate_g1_elements)),
        scalars_map_wf(*old(kate_fr_elements)),
        nu.wf(),
        zeta_n.wf(),
        width <= 4,
    ensures
        points_map_wf(*final(kate_g1_elements)),
        scalars_map_wf(*final(kate_fr_elements)),
        r is Ok ==> batch_quotient(
            transcript@,
            nu@,
            zeta_n@,
            accumulators_view(*old(kate_g1_elements), *old(kate_fr_elements), batch_eval, shifted),
            width as nat,
        ) == Ok::<BatchState, Error>(
            accumulators_view(
                *final(kate_g1_elements),
                *final(kate_fr_elements),
                batch_eval,
                shifted,
            ),
        ),
        r matches Err(e) ==> batch_quotient(
            transcript@,
            nu@,
            zeta_n@,
            accumulators_view(*old(kate_g1_elements), *old(kate_fr_elements), batch_eval, shifted),
            width as nat,
        ) == Err::<BatchState, Error>(e),
{
    let ghost tv = transcript@;
    let ghost p = fr_modulus();
    let ghost start = accumulators_view(*kate_g1_elements, *kate_fr_elements, batch_eval, shifted);
    let mut z_pow = Fr::one();
    let mut k: usize = 0;
    proof {
        lemma_pow0(zeta_n@);
    }
    while k < width
        invariant
            k <= width <= 4,
            transcript.wf(),
            points_map_wf(*kate_g1_elements),
            scalars_map_wf(*kate_fr_elements),
            nu.wf(),
            zeta_n.wf(),
            z_pow.wf(),
            tv == transcript@,
            p == fr_modulus(),
            z_pow@ == pow(zeta_n@, k as nat) % p,
            start == accumulators_view(
                *old(kate_g1_elements),
                *old(kate_fr_elements),
                batch_eval,
                shifted,
            ),
            batch_quotient(tv, nu@, zeta_n@, start, k as nat) == Ok::<BatchState, Error>(
                accumulators_view(*kate_g1_elements, *kate_fr_elements, batch_eval, shifted),
            ),
        decreases width - k,
    {
        let label = quotient_label_of(k);
        let part = match read_point(transcript, label) {
            Ok(c) => c,
            Err(e) => {
                proof {
                    assert(batch_quotient(tv, nu@, zeta_n@, start, (k + 1) as nat) == Err::<
                        BatchState,
                        Error,
                    >(e));
                    lemma_batch_quotient_stays(
                        tv,
                        nu@,
                        zeta_n@,
                        start,
                        (k + 1) as nat,
                        width as nat,
                    );
                    assert(batch_quotient(tv, nu@, zeta_n@, start, width as nat) == Err::<
                        BatchState,
                        Error,
                    >(e));
                }
                return Err(e);
            },
        };
        insert_pair(kate_g1_elements, kate_fr_elements, label, part, nu.mul(&z_pow));
        proof {
            let x = zeta_n@;
            lemma_pow1(x);
            lemma_pow_adds(x, k as nat, 1);
            crate::modular::lemma_eqm_mod(pow(x, k as nat), p);
            crate::modular::lemma_eqm_mul(z_pow@, pow(x, k as nat), x, x, p);
        }
        z_pow = z_pow.mul(zeta_n);
        k = k + 1;
    }
    Ok(())
}

/// The bounds of batch `i` of `t`: its polynomials lie within `t * n * m`
/// coefficients and its opening within `t * n`.
pub proof fn lemma_batch_bounds(i: int, t: int, n: int, m: int)
    requires
        0 <= i < t,
        0 <= n,
        0 <= m,
    ensures
        0 <= i * n,
        0 <= i * n * m,
        i * n * m + n * m <= t * n * m,
        i * n + n <= t * n,
        0 <= n * m,
{
    assert(i * n * m + n * m == (i + 1) * (n * m)) by (nonlinear_arith);
    assert((i + 1) * (n * m) <= t * (n * m)) by (nonlinear_arith)
        requires
            i + 1 <= t,
            0 <= n,
            0 <= m,
    ;
    assert(t * (n * m) == t * n * m) by (nonlinear_arith);
    assert(i * n + n == (i + 1) * n) by (nonlinear_arith);
    assert((i + 1) * n <= t * n) by (nonlinear_arith)
        requires
            i + 1 <= t,
            0 <= n,
    ;
    assert(0 <= i * n * m && 0 <= i * n && 0 <= n * m) by (nonlinear_arith)
        requires
            0 <= i,
            0 <= n,
            0 <= m,
    ;
}

/// Coefficient `k` of polynomial `j` lies within the `n * m` coefficients
/// of a batch.
pub proof fn lemma_column_index(j: int, k: int, n: int, m: int)
    requires
        0 <= j < m,
        0 <= k < n,
    ensures
        0 <= j * n,
        j * n + k < n * m,
{
    assert(j * n + n <= m * n) by (nonlinear_arith)
        requires
            j + 1 <= m,
            0 <= n,
    ;
    assert(m * n == n * m) by (nonlinear_arith);
    assert(0 <= j * n) by (nonlinear_arith)
        requires
            0 <= j,
            0 <= n,
    ;
}

} // verus!
