//! What the verifier of Kate openings combines: for every commitment a
//! scalar, so that the sum of the scalars times the commitments, paired with
//! the generator of the second group, and the opening proofs, paired with
//! the secret's multiple of it, cancel for a valid proof.

use crate::errors::Error;
use crate::field::{add_mod, fr_modulus, mul_mod, neg_mod};
use crate::group::{g1_generator, G1Point};
use crate::protocol::{tv_challenge, tv_point, tv_scalar};
use crate::settings::PolynomialSource;
use crate::transcript::TranscriptState;
use vstd::arithmetic::power::pow;
use vstd::prelude::*;

verus! {

/// The accumulators of a batch as plain values: the commitments and their
/// scalars by label, the combined evaluation so far, and how many shifted
/// evaluations went into it.
pub struct BatchState {
    pub points: Map<Seq<char>, G1Point>,
    pub scalars: Map<Seq<char>, int>,
    pub batch_eval: int,
    pub shifted: nat,
}

/// The commitment to a polynomial: from the transcript for a witness, else
/// from the key.
pub open spec fn batch_commitment(
    tv: TranscriptState,
    commitments: Map<Seq<char>, G1Point>,
    label: Seq<char>,
    source: PolynomialSource,
) -> Result<G1Point, Error> {
    if source == PolynomialSource::Witness {
        tv_point(tv, label)
    } else if commitments.contains_key(label) {
        Ok(commitments[label])
    } else {
        Err(Error::ProtocolError)
    }
}

/// The accumulators after polynomial `i` went in. With `nu` the
/// polynomial's challenge and `v` its value, the commitment gets the scalar
/// `nu` and the combined evaluation grows by `nu * v`; where the polynomial
/// is opened at the shifted point too, with challenge `nu'` and value `v'`
/// there, the scalar grows by `separator * nu'` and the evaluation by
/// `separator * nu' * v'`.
#[verifier::opaque]
pub open spec fn batch_step(
    tv: TranscriptState,
    commitments: Map<Seq<char>, G1Point>,
    polynomials: Seq<(Seq<char>, Seq<char>, bool, PolynomialSource)>,
    separator: int,
    s: BatchState,
    i: int,
) -> Result<BatchState, Error> {
    let p = fr_modulus();
    let (commitment_label, polynomial_label, shifted, source) = polynomials[i];
    match batch_commitment(tv, commitments, commitment_label, source) {
        Err(e) => Err(e),
        Ok(c) => match tv_challenge(tv, "nu"@, i) {
            Err(e) => Err(e),
            Ok(nu) => match tv_scalar(tv, polynomial_label) {
                Err(e) => Err(e),
                Ok(v) => {
                    let eval = add_mod(s.batch_eval, mul_mod(nu, v, p), p);
                    if !shifted {
                        Ok(
                            BatchState {
                                points: s.points.insert(commitment_label, c),
                                scalars: s.scalars.insert(commitment_label, nu),
                                batch_eval: eval,
                                shifted: s.shifted,
                            },
                        )
                    } else {
                        match tv_challenge(tv, "nu"@, (polynomials.len() + s.shifted) as int) {
                            Err(e) => Err(e),
                            Ok(nu_shifted) => match tv_scalar(tv, polynomial_label + "_omega"@) {
                                Err(e) => Err(e),
                                Ok(v_shifted) => {
                                    let weight = mul_mod(separator, nu_shifted, p);
                                    Ok(
                                        BatchState {
                                            points: s.points.insert(commitment_label, c),
                                            scalars: s.scalars.insert(
                                                commitment_label,
                                                add_mod(nu, weight, p),
                                            ),
                                            batch_eval: add_mod(
                                                eval,
                                                mul_mod(weight, v_shifted, p),
                                                p,
                                            ),
                                            shifted: s.shifted + 1,
                                        },
                                    )
                                },
                            },
                        }
                    }
                },
            },
        },
    }
}

/// The accumulators after the first `k` polynomials went in, or the first
/// failure among them.
pub open spec fn batch_polynomials(
    tv: TranscriptState,
    commitments: Map<Seq<char>, G1Point>,
    polynomials: Seq<(Seq<char>, Seq<char>, bool, PolynomialSource)>,
    separator: int,
    start: BatchState,
    k: nat,
) -> Result<BatchState, Error>
    decreases k,
{
    if k == 0 {
        Ok(start)
    } else {
        match batch_polynomials(tv, commitments, polynomials, separator, start, (k - 1) as nat) {
            Err(e) => Err(e),
            Ok(s) => batch_step(tv, commitments, polynomials, separator, s, k - 1),
        }
    }
}

/// The label of part `i` of the quotient, counted from zero.
pub open spec fn quotient_label(i: int) -> Seq<char> {
    if i == 0 {
        "T_1"@
    } else if i == 1 {
        "T_2"@
    } else if i == 2 {
        "T_3"@
    } else {
        "T_4"@
    }
}

/// The accumulators after the first `k` parts of the quotient went in:
/// part `i` gets the scalar `nu * (zeta^n)^i`.
pub open spec fn batch_quotient(
    tv: TranscriptState,
    nu: int,
    zeta_n: int,
    start: BatchState,
    k: nat,
) -> Result<BatchState, Error>
    decreases k,
{
    if k == 0 {
        Ok(start)
    } else {
        match batch_quotient(tv, nu, zeta_n, start, (k - 1) as nat) {
            Err(e) => Err(e),
            Ok(s) => match tv_point(tv, quotient_label(k - 1)) {
                Err(e) => Err(e),
                Ok(t) => Ok(
                    BatchState {
                        points: s.points.insert(quotient_label(k - 1), t),
                        scalars: s.scalars.insert(
                            quotient_label(k - 1),
                            mul_mod(nu, pow(zeta_n, (k - 1) as nat) % fr_modulus(), fr_modulus()),
                        ),
                        ..s
                    },
                ),
            },
        }
    }
}

/// The accumulators after the generator and the opening proofs went in:
/// the generator gets minus the combined evaluation as scalar, where the
/// value `t` of the quotient counts `nu` times; `PI_Z` gets `zeta`, and
/// `PI_Z_OMEGA` gets `separator * zeta * root`.
pub open spec fn batch_finish(
    tv: TranscriptState,
    nu: int,
    zeta: int,
    separator: int,
    root: int,
    s: BatchState,
) -> Result<BatchState, Error> {
    let p = fr_modulus();
    match tv_scalar(tv, "t"@) {
        Err(e) => Err(e),
        Ok(t) => match tv_point(tv, "PI_Z"@) {
            Err(e) => Err(e),
            Ok(pi_z) => match tv_point(tv, "PI_Z_OMEGA"@) {
                Err(e) => Err(e),
                Ok(pi_z_omega) => {
                    let eval = add_mod(s.batch_eval, mul_mod(nu, t, p), p);
                    Ok(
                        BatchState {
                            points: s.points.insert("BATCH_EVALUATION"@, g1_generator()).insert(
                                "PI_Z"@,
                                pi_z,
                            ).insert("PI_Z_OMEGA"@, pi_z_omega),
                            scalars: s.scalars.insert("BATCH_EVALUATION"@, neg_mod(eval, p)).insert(
                                "PI_Z"@,
                                zeta,
                            ).insert("PI_Z_OMEGA"@, mul_mod(mul_mod(separator, zeta, p), root, p)),
                            batch_eval: eval,
                            shifted: s.shifted,
                        },
                    )
                },
            },
        },
    }
}

/// The accumulators after everything behind the polynomials went in: the
/// parts of the quotient with the last challenge `nu`, then the generator
/// and the opening proofs.
pub open spec fn batch_tail(
    tv: TranscriptState,
    num_polynomials: nat,
    circuit_size: nat,
    program_width: nat,
    root: int,
    zeta: int,
    separator: int,
    s: BatchState,
) -> Result<BatchState, Error> {
    match tv_challenge(tv, "nu"@, (num_polynomials + s.shifted) as int) {
        Err(e) => Err(e),
        Ok(nu) => match batch_quotient(
            tv,
            nu,
            pow(zeta, circuit_size) % fr_modulus(),
            s,
            program_width,
        ) {
            Err(e) => Err(e),
            Ok(s2) => batch_finish(tv, nu, zeta, separator, root, s2),
        },
    }
}

/// The accumulators that a transcript and a key come to, or why they come
/// to none. With `zeta` the challenge `z` and `u` the challenge
/// `separator`: every polynomial of the manifest goes in, then the parts of
/// the quotient, the generator and the opening proofs.
pub open spec fn batch_verify_spec(
    tv: TranscriptState,
    commitments: Map<Seq<char>, G1Point>,
    polynomials: Seq<(Seq<char>, Seq<char>, bool, PolynomialSource)>,
    circuit_size: nat,
    program_width: nat,
    root: int,
    start: BatchState,
) -> Result<BatchState, Error> {
    if program_width != 3 && program_width != 4 {
        Err(Error::ProtocolError)
    } else {
        match tv_challenge(tv, "z"@, 0) {
            Err(e) => Err(e),
            Ok(zeta) => match tv_challenge(tv, "separator"@, 0) {
                Err(e) => Err(e),
                Ok(separator) => match batch_polynomials(
                    tv,
                    commitments,
                    polynomials,
                    separator,
                    start,
                    polynomials.len(),
                ) {
                    Err(e) => Err(e),
                    Ok(s) => batch_tail(
                        tv,
                        polynomials.len(),
                        circuit_size,
                        program_width,
                        root,
                        zeta,
                        separator,
                        s,
                    ),
                },
            },
        }
    }
}

/// Later polynomials change nothing about the first failure.
pub proof fn lemma_batch_polynomials_stays(
    tv: TranscriptState,
    commitments: Map<Seq<char>, G1Point>,
    polynomials: Seq<(Seq<char>, Seq<char>, bool, PolynomialSource)>,
    separator: int,
    start: BatchState,
    k: nat,
    n: nat,
)
    requires
        k <= n,
        batch_polynomials(tv, commitments, polynomials, separator, start, k) is Err,
    ensures
        batch_polynomials(tv, commitments, polynomials, separator, start, n) == batch_polynomials(
            tv,
            commitments,
            polynomials,
            separator,
            start,
            k,
        ),
    decreases n,
{
    if k < n {
        lemma_batch_polynomials_stays(
            tv,
            commitments,
            polynomials,
            separator,
            start,
            k,
            (n - 1) as nat,
        );
    }
}

/// Later parts of the quotient change nothing about the first failure.
pub proof fn lemma_batch_quotient_stays(
    tv: TranscriptState,
    nu: int,
    zeta_n: int,
    start: BatchState,
    k: nat,
    n: nat,
)
    requires
        k <= n,
        batch_quotient(tv, nu, zeta_n, start, k) is Err,
    ensures
        batch_quotient(tv, nu, zeta_n, start, n) == batch_quotient(tv, nu, zeta_n, start, k),
    decreases n,
{
    if k < n {
        lemma_batch_quotient_stays(tv, nu, zeta_n, start, k, (n - 1) as nat);
    }
}

} // verus!
