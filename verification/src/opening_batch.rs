//! The two polynomials that a prover opens: the combination of all
//! polynomials of the circuit and of the quotient at the challenge point,
//! and the combination of the shifted polynomials at the challenge point
//! times the root of the domain.

use crate::bytes::{fr_to_bytes, spec_bytes32};
use crate::errors::Error;
use crate::evaluation_domain::{spec_ifft, EvaluationDomain};
use crate::field::{add_mod, fr_modulus, mul_mod, Fr};
use crate::polynomial::fr_eval;
use vstd::string::StringExecFns;
use crate::polynomial::{all_wf, fr_values, Polynomial};
use crate::proving_key::ProvingKey;
use vstd::arithmetic::power::{lemma_pow0, lemma_pow1, lemma_pow_adds, pow};
use crate::polynomial_store::PolynomialStore;
use crate::protocol::{read_challenge, tv_challenge};
use crate::settings::{PolynomialManifest, PolynomialSource};
use crate::transcript::{Transcript, TranscriptState};
use vstd::prelude::*;

verus! {

/// A polynomial with a multiple of another added to it, coefficient by
/// coefficient, as far as the other reaches.
pub open spec fn spec_add_scaled(dest: Seq<int>, src: Seq<int>, factor: int) -> Seq<int> {
    Seq::new(
        dest.len(),
        |i: int|
            if i < src.len() {
                add_mod(dest[i], mul_mod(factor, src[i], fr_modulus()), fr_modulus())
            } else {
                dest[i]
            },
    )
}

/// Adds to a polynomial a multiple of another, coefficient by coefficient.
pub fn add_scaled(dest: &mut Vec<Fr>, src: &[Fr], factor: &Fr)
    requires
        all_wf(old(dest)@),
        all_wf(src@),
        factor.wf(),
        src@.len() <= old(dest)@.len(),
    ensures
        all_wf(final(dest)@),
        final(dest)@.len() == old(dest)@.len(),
        fr_values(final(dest)@) == spec_add_scaled(fr_values(old(dest)@), fr_values(src@), factor@),
{
    let mut i: usize = 0;
    while i < src.len()
        invariant
            i <= src@.len() <= dest@.len(),
            dest@.len() == old(dest)@.len(),
            all_wf(dest@),
            all_wf(src@),
            factor.wf(),
            forall|k: int|
                0 <= k < i ==> (#[trigger] dest@[k])@ == add_mod(
                    old(dest)@[k]@,
                    mul_mod(factor@, src@[k]@, fr_modulus()),
                    fr_modulus(),
                ),
            forall|k: int| i <= k < dest@.len() ==> dest@[k] == old(dest)@[k],
        decreases src@.len() - i,
    {
        let term = factor.mul(&src[i]);
        let sum = dest[i].add(&term);
        dest[i] = sum;
        i = i + 1;
    }
    proof {
        assert(fr_values(dest@) =~= spec_add_scaled(
            fr_values(old(dest)@),
            fr_values(src@),
            factor@,
        ));
    }
}

/// The combination of the first `k` polynomials of a manifest, polynomial
/// `i` weighted by the challenge `nu` of index `i`; the polynomials come
/// from the store in coefficient form and must not be longer than the
/// combination.
pub open spec fn open_combination(
    tv: TranscriptState,
    store: PolynomialStore,
    polynomials: Seq<(Seq<char>, Seq<char>, bool, PolynomialSource)>,
    length: nat,
    k: nat,
) -> Result<Seq<int>, Error>
    decreases k,
{
    if k == 0 {
        Ok(Seq::new(length, |i: int| 0int))
    } else {
        match open_combination(tv, store, polynomials, length, (k - 1) as nat) {
            Err(e) => Err(e),
            Ok(sum) => match tv_challenge(tv, "nu"@, k - 1) {
                Err(e) => Err(e),
                Ok(nu) => {
                    let label = polynomials[k - 1].1;
                    if !store.spec_contains(label) || store.spec_get(label).len() > length {
                        Err(Error::InvalidInput)
                    } else {
                        Ok(spec_add_scaled(sum, store.spec_get(label), nu))
                    }
                },
            },
        }
    }
}

/// The number of the first `k` polynomials of a manifest that are opened at
/// the shifted point.
pub open spec fn shifted_count(
    polynomials: Seq<(Seq<char>, Seq<char>, bool, PolynomialSource)>,
    k: nat,
) -> nat
    decreases k,
{
    if k == 0 {
        0
    } else {
        shifted_count(polynomials, (k - 1) as nat) + (if polynomials[k - 1].2 {
            1nat
        } else {
            0nat
        })
    }
}

/// The combination of those of the first `k` polynomials of a manifest
/// that are opened at the shifted point, each weighted by its challenge
/// `nu`: the challenges of the shifted openings follow those of all
/// polynomials.
pub open spec fn shifted_combination(
    tv: TranscriptState,
    store: PolynomialStore,
    polynomials: Seq<(Seq<char>, Seq<char>, bool, PolynomialSource)>,
    length: nat,
    k: nat,
) -> Result<Seq<int>, Error>
    decreases k,
{
    if k == 0 {
        Ok(Seq::new(length, |i: int| 0int))
    } else {
        match shifted_combination(tv, store, polynomials, length, (k - 1) as nat) {
            Err(e) => Err(e),
            Ok(sum) => if !polynomials[k - 1].2 {
                Ok(sum)
            } else {
                match tv_challenge(
                    tv,
                    "nu"@,
                    (polynomials.len() + shifted_count(polynomials, (k - 1) as nat)) as int,
                ) {
                    Err(e) => Err(e),
                    Ok(nu) => {
                        let label = polynomials[k - 1].1;
                        if !store.spec_contains(label) || store.spec_get(label).len() > length {
                            Err(Error::InvalidInput)
                        } else {
                            Ok(spec_add_scaled(sum, store.spec_get(label), nu))
                        }
                    },
                }
            },
        }
    }
}

/// Later polynomials change nothing about the first failure.
pub proof fn lemma_open_combination_stays(
    tv: TranscriptState,
    store: PolynomialStore,
    polynomials: Seq<(Seq<char>, Seq<char>, bool, PolynomialSource)>,
    length: nat,
    k: nat,
    n: nat,
)
    requires
        k <= n,
        open_combination(tv, store, polynomials, length, k) is Err,
    ensures
        open_combination(tv, store, polynomials, length, n) == open_combination(
            tv,
            store,
            polynomials,
            length,
            k,
        ),
    decreases n,
{
    if k < n {
        lemma_open_combination_stays(tv, store, polynomials, length, k, (n - 1) as nat);
    }
}

/// Later polynomials change nothing about the first failure.
pub proof fn lemma_shifted_combination_stays(
    tv: TranscriptState,
    store: PolynomialStore,
    polynomials: Seq<(Seq<char>, Seq<char>, bool, PolynomialSource)>,
    length: nat,
    k: nat,
    n: nat,
)
    requires
        k <= n,
        shifted_combination(tv, store, polynomials, length, k) is Err,
    ensures
        shifted_combination(tv, store, polynomials, length, n) == shifted_combination(
            tv,
            store,
            polynomials,
            length,
            k,
        ),
    decreases n,
{
    if k < n {
        lemma_shifted_combination_stays(tv, store, polynomials, length, k, (n - 1) as nat);
    }
}

/// The zero polynomial of a length.
pub fn zero_coefficients(length: usize) -> (r: Vec<Fr>)
    ensures
        all_wf(r@),
        r@.len() == length,
        fr_values(r@) == Seq::new(length as nat, |i: int| 0int),
{
    let mut out: Vec<Fr> = Vec::new();
    let mut i: usize = 0;
    while i < length
        invariant
            i <= length,
            out@.len() == i,
            forall|k: int| 0 <= k < i ==> (#[trigger] out@[k])@ == 0,
        decreases length - i,
    {
        out.push(Fr::zero());
        i = i + 1;
    }
    proof {
        assert(fr_values(out@) =~= Seq::new(length as nat, |i: int| 0int));
    }
    out
}

/// The combination of all polynomials of a manifest, each weighted by its
/// challenge `nu`.
pub fn combine_polynomials(
    transcript: &Transcript,
    store: &PolynomialStore,
    manifest: &PolynomialManifest,
    length: usize,
) -> (r: Result<Vec<Fr>, Error>)
    requires
        transcript.wf(),
        store.wf(),
    ensures
        r matches Ok(v) ==> all_wf(v@) && Ok::<Seq<int>, Error>(fr_values(v@)) == open_combination(
            transcript@,
            *store,
            manifest@,
            length as nat,
            manifest@.len(),
        ),
        r matches Err(e) ==> Err::<Seq<int>, Error>(e) == open_combination(
            transcript@,
            *store,
            manifest@,
            length as nat,
            manifest@.len(),
        ),
{
    let ghost tv = transcript@;
    let ghost pv = manifest@;
    let mut sum = zero_coefficients(length);
    let mut i: usize = 0;
    while i < manifest.entries.len()
        invariant
            i <= manifest.entries@.len(),
            transcript.wf(),
            store.wf(),
            tv == transcript@,
            pv == manifest@,
            all_wf(sum@),
            sum@.len() == length,
            open_combination(tv, *store, pv, length as nat, i as nat) == Ok::<Seq<int>, Error>(
                fr_values(sum@),
            ),
        decreases manifest.entries@.len() - i,
    {
        let d = &manifest.entries[i];
        proof {
            assert(pv[i as int].1 == d.polynomial_label@);
            if open_combination(tv, *store, pv, length as nat, (i + 1) as nat) is Err {
                lemma_open_combination_stays(
                    tv,
                    *store,
                    pv,
                    length as nat,
                    (i + 1) as nat,
                    pv.len(),
                );
            }
        }
        let nu = match read_challenge(transcript, "nu", i) {
            Ok(v) => v,
            Err(e) => {
                return Err(e);
            },
        };
        let polynomial = match store.get(d.polynomial_label.as_str()) {
            Some(p) => p,
            None => {
                return Err(Error::InvalidInput);
            },
        };
        if polynomial.size() > length {
            return Err(Error::InvalidInput);
        }
        add_scaled(&mut sum, polynomial.coefficients.as_slice(), &nu);
        i = i + 1;
    }
    Ok(sum)
}

/// The combination of the polynomials of a manifest that are opened at the
/// shifted point, each weighted by its challenge `nu`.
pub fn combine_shifted_polynomials(
    transcript: &Transcript,
    store: &PolynomialStore,
    manifest: &PolynomialManifest,
    length: usize,
) -> (r: Result<Vec<Fr>, Error>)
    requires
        transcript.wf(),
        store.wf(),
        2 * manifest@.len() <= usize::MAX,
    ensures
        r matches Ok(v) ==> all_wf(v@) && Ok::<Seq<int>, Error>(fr_values(v@))
            == shifted_combination(
            transcript@,
            *store,
            manifest@,
            length as nat,
            manifest@.len(),
        ),
        r matches Err(e) ==> Err::<Seq<int>, Error>(e) == shifted_combination(
            transcript@,
            *store,
            manifest@,
            length as nat,
            manifest@.len(),
        ),
{
    let ghost tv = transcript@;
    let ghost pv = manifest@;
    let count = manifest.entries.len();
    let mut sum = zero_coefficients(length);
    let mut shifted: usize = 0;
    let mut i: usize = 0;
    while i < count
        invariant
            i <= count,
            count == manifest.entries@.len(),
            2 * count <= usize::MAX,
            transcript.wf(),
            store.wf(),
            tv == transcript@,
            pv == manifest@,
            all_wf(sum@),
            sum@.len() == length,
            shifted <= i,
            shifted == shifted_count(pv, i as nat),
            shifted_combination(tv, *store, pv, length as nat, i as nat) == Ok::<Seq<int>, Error>(
                fr_values(sum@),
            ),
        decreases count - i,
    {
        let d = &manifest.entries[i];
        proof {
            assert(pv[i as int].1 == d.polynomial_label@);
            assert(pv[i as int].2 == d.requires_shifted_evaluation);
            if shifted_combination(tv, *store, pv, length as nat, (i + 1) as nat) is Err {
                lemma_shifted_combination_stays(
                    tv,
                    *store,
                    pv,
                    length as nat,
                    (i + 1) as nat,
                    pv.len(),
                );
            }
        }
        if d.requires_shifted_evaluation {
            let nu = match read_challenge(transcript, "nu", count + shifted) {
                Ok(v) => v,
                Err(e) => {
                    return Err(e);
                },
            };
            let polynomial = match store.get(d.polynomial_label.as_str()) {
                Some(p) => p,
                None => {
                    return Err(Error::InvalidInput);
                },
            };
            if polynomial.size() > length {
                return Err(Error::InvalidInput);
            }
            add_scaled(&mut sum, polynomial.coefficients.as_slice(), &nu);
            shifted = shifted + 1;
        }
        i = i + 1;
    }
    Ok(sum)
}

/// The number of polynomials of a manifest that are opened at the shifted
/// point.
pub fn count_shifted(manifest: &PolynomialManifest) -> (r: usize)
    ensures
        r == shifted_count(manifest@, manifest@.len()),
        r <= manifest@.len(),
{
    let mut shifted: usize = 0;
    let mut i: usize = 0;
    while i < manifest.entries.len()
        invariant
            i <= manifest.entries@.len(),
            shifted <= i,
            shifted == shifted_count(manifest@, i as nat),
        decreases manifest.entries@.len() - i,
    {
        proof {
            assert(manifest@[i as int].2 == manifest.entries@[i as int].requires_shifted_evaluation);
        }
        if manifest.entries[i].requires_shifted_evaluation {
            shifted = shifted + 1;
        }
        i = i + 1;
    }
    shifted
}

/// The coefficients of each of a list of polynomials.
pub open spec fn parts_view(parts: Seq<Polynomial>) -> Seq<Seq<int>> {
    Seq::new(parts.len(), |i: int| parts[i]@)
}

/// A combination with the first `k` parts of the quotient added: part `j`
/// weighted by `nu * zeta_n^j`. A part that is longer than the
/// combination is refused.
pub open spec fn quotient_combination(
    sum: Seq<int>,
    parts: Seq<Seq<int>>,
    nu: int,
    zeta_n: int,
    k: nat,
) -> Result<Seq<int>, Error>
    decreases k,
{
    if k == 0 {
        Ok(sum)
    } else {
        match quotient_combination(sum, parts, nu, zeta_n, (k - 1) as nat) {
            Err(e) => Err(e),
            Ok(before) => if parts[k - 1].len() > before.len() {
                Err(Error::InvalidInput)
            } else {
                Ok(
                    spec_add_scaled(
                        before,
                        parts[k - 1],
                        mul_mod(nu, pow(zeta_n, (k - 1) as nat) % fr_modulus(), fr_modulus()),
                    ),
                )
            },
        }
    }
}

/// Later parts change nothing about the first failure.
pub proof fn lemma_quotient_combination_stays(
    sum: Seq<int>,
    parts: Seq<Seq<int>>,
    nu: int,
    zeta_n: int,
    k: nat,
    n: nat,
)
    requires
        k <= n,
        quotient_combination(sum, parts, nu, zeta_n, k) is Err,
    ensures
        quotient_combination(sum, parts, nu, zeta_n, n) == quotient_combination(
            sum,
            parts,
            nu,
            zeta_n,
            k,
        ),
    decreases n,
{
    if k < n {
        lemma_quotient_combination_stays(sum, parts, nu, zeta_n, k, (n - 1) as nat);
    }
}

/// Adds the first `width` parts of the quotient to a combination.
pub fn add_quotient_parts(
    sum: &mut Vec<Fr>,
    parts: &Vec<Polynomial>,
    nu: &Fr,
    zeta_n: &Fr,
    width: usize,
) -> (r: Result<(), Error>)
    requires
        all_wf(old(sum)@),
        forall|i: int| 0 <= i < parts@.len() ==> (#[trigger] parts@[i]).wf(),
        nu.wf(),
        zeta_n.wf(),
        width <= parts@.len(),
    ensures
        all_wf(final(sum)@),
        final(sum)@.len() == old(sum)@.len(),
        r is Ok ==> Ok::<Seq<int>, Error>(fr_values(final(sum)@)) == quotient_combination(
            fr_values(old(sum)@),
            parts_view(parts@),
            nu@,
            zeta_n@,
            width as nat,
        ),
        r matches Err(e) ==> Err::<Seq<int>, Error>(e) == quotient_combination(
            fr_values(old(sum)@),
            parts_view(parts@),
            nu@,
            zeta_n@,
            width as nat,
        ),
{
    let ghost p = fr_modulus();
    let ghost start = fr_values(sum@);
    let ghost pv = parts_view(parts@);
    let mut z_pow = Fr::one();
    let mut k: usize = 0;
    proof {
        lemma_pow0(zeta_n@);
    }
    while k < width
        invariant
            k <= width <= parts@.len(),
            all_wf(sum@),
            sum@.len() == old(sum)@.len(),
            forall|i: int| 0 <= i < parts@.len() ==> (#[trigger] parts@[i]).wf(),
            nu.wf(),
            zeta_n.wf(),
            z_pow.wf(),
            p == fr_modulus(),
            start == fr_values(old(sum)@),
            pv == parts_view(parts@),
            z_pow@ == pow(zeta_n@, k as nat) % p,
            quotient_combination(start, pv, nu@, zeta_n@, k as nat) == Ok::<Seq<int>, Error>(
                fr_values(sum@),
            ),
        decreases width - k,
    {
        let part = &parts[k];
        proof {
            assert(pv[k as int] == part@);
        }
        if part.size() > sum.len() {
            proof {
                lemma_quotient_combination_stays(
                    start,
                    pv,
                    nu@,
                    zeta_n@,
                    (k + 1) as nat,
                    width as nat,
                );
            }
            return Err(Error::InvalidInput);
        }
        let weight = nu.mul(&z_pow);
        add_scaled(sum, part.coefficients.as_slice(), &weight);
        proof {
            let x = zeta_n@;
            lemma_pow1(x);
            lemma_pow_adds(x, k as nat, 1);
            crate::modular::lemma_eqm_mod(pow(x, k as nat), p);
            crate::modular::lemma_eqm_mul(z_pow@, pow(x, k as nat), x, x, p);
        }
        z_pow = z_pow.mul(zeta_n);
        k = k + 1;
    }
    Ok(())
}

/// What a prover opens: the two points and the two combinations.
pub struct OpeningInputs {
    pub zeta: int,
    pub zeta_omega: int,
    pub combined: Seq<int>,
    pub shifted: Seq<int>,
}

/// The number of wires of a gate for a kind of circuit.
pub open spec fn spec_width_of(composer_type: u32) -> nat {
    if composer_type == 0 {
        3
    } else {
        4
    }
}

/// What a prover opens for a transcript and a key, or why it can open
/// nothing. With `zeta` the challenge `z`: the combination of all
/// polynomials and of the parts of the quotient, of one coefficient more
/// than the circuit has rows, is opened at `zeta`, and the combination of
/// the shifted polynomials at `zeta * root`. Neither point may be zero, and
/// the circuit not empty.
#[verifier::opaque]
pub open spec fn opening_inputs(
    tv: TranscriptState,
    store: PolynomialStore,
    polynomials: Seq<(Seq<char>, Seq<char>, bool, PolynomialSource)>,
    parts: Seq<Seq<int>>,
    n: nat,
    width: nat,
    root: int,
) -> Result<OpeningInputs, Error> {
    let p = fr_modulus();
    if n == 0 {
        Err(Error::InvalidInput)
    } else {
        match tv_challenge(tv, "z"@, 0) {
            Err(e) => Err(e),
            Ok(zeta) => if zeta == 0 || mul_mod(zeta, root, p) == 0 {
                Err(Error::InvalidInput)
            } else {
                match open_combination(tv, store, polynomials, n + 1, polynomials.len()) {
                    Err(e) => Err(e),
                    Ok(f) => match tv_challenge(
                        tv,
                        "nu"@,
                        (polynomials.len() + shifted_count(polynomials, polynomials.len())) as int,
                    ) {
                        Err(e) => Err(e),
                        Ok(nu) => match quotient_combination(
                            f,
                            parts,
                            nu,
                            pow(zeta, n) % p,
                            width,
                        ) {
                            Err(e) => Err(e),
                            Ok(combined) => match shifted_combination(
                                tv,
                                store,
                                polynomials,
                                n,
                                polynomials.len(),
                            ) {
                                Err(e) => Err(e),
                                Ok(shifted) => Ok(
                                    OpeningInputs {
                                        zeta,
                                        zeta_omega: mul_mod(zeta, root, p),
                                        combined,
                                        shifted,
                                    },
                                ),
                            },
                        },
                    },
                }
            },
        }
    }
}

/// What a prover opens, as machine values.
pub struct PreparedOpening {
    pub zeta: Fr,
    pub zeta_omega: Fr,
    pub combined: Vec<Fr>,
    pub shifted: Vec<Fr>,
}

impl PreparedOpening {
    /// Every scalar is canonical.
    pub open spec fn wf(&self) -> bool {
        &&& self.zeta.wf()
        &&& self.zeta_omega.wf()
        &&& all_wf(self.combined@)
        &&& all_wf(self.shifted@)
    }
}

impl View for PreparedOpening {
    type V = OpeningInputs;

    open spec fn view(&self) -> OpeningInputs {
        OpeningInputs {
            zeta: self.zeta@,
            zeta_omega: self.zeta_omega@,
            combined: fr_values(self.combined@),
            shifted: fr_values(self.shifted@),
        }
    }
}

/// Reads the challenges and combines the polynomials that a prover opens.
pub fn prepare_opening(transcript: &Transcript, key: &ProvingKey) -> (r: Result<
    PreparedOpening,
    Error,
>)
    requires
        transcript.wf(),
        key.wf(),
        2 * key.polynomial_manifest@.len() <= usize::MAX,
    ensures
        r matches Ok(v) ==> v.wf() && Ok::<OpeningInputs, Error>(v@) == opening_inputs(
            transcript@,
            key.polynomial_store,
            key.polynomial_manifest@,
            parts_view(key.quotient_polynomial_parts@),
            key.circuit_size as nat,
            spec_width_of(key.composer_type),
            key.small_domain.root@,
        ),
        r matches Err(e) ==> Err::<OpeningInputs, Error>(e) == opening_inputs(
            transcript@,
            key.polynomial_store,
            key.polynomial_manifest@,
            parts_view(key.quotient_polynomial_parts@),
            key.circuit_size as nat,
            spec_width_of(key.composer_type),
            key.small_domain.root@,
        ),
{
    proof {
        reveal(opening_inputs);
    }
    let n = key.circuit_size;
    if n == 0 {
        return Err(Error::InvalidInput);
    }
    let width: usize = if key.composer_type == 0 { 3 } else { 4 };
    let zeta = match read_challenge(transcript, "z", 0) {
        Ok(v) => v,
        Err(e) => {
            return Err(e);
        },
    };
    let zeta_omega = zeta.mul(&key.small_domain.root);
    if zeta.is_zero() || zeta_omega.is_zero() {
        return Err(Error::InvalidInput);
    }
    let mut combined = match combine_polynomials(
        transcript,
        &key.polynomial_store,
        &key.polynomial_manifest,
        n + 1,
    ) {
        Ok(v) => v,
        Err(e) => {
            return Err(e);
        },
    };
    let count = key.polynomial_manifest.entries.len();
    let shifted_total = count_shifted(&key.polynomial_manifest);
    let nu = match read_challenge(transcript, "nu", count + shifted_total) {
        Ok(v) => v,
        Err(e) => {
            return Err(e);
        },
    };
    let zeta_n = zeta.pow(n as u64);
    match add_quotient_parts(&mut combined, &key.quotient_polynomial_parts, &nu, &zeta_n, width) {
        Ok(()) => {},
        Err(e) => {
            return Err(e);
        },
    }
    let shifted = match combine_shifted_polynomials(
        transcript,
        &key.polynomial_store,
        &key.polynomial_manifest,
        n,
    ) {
        Ok(v) => v,
        Err(e) => {
            return Err(e);
        },
    };
    Ok(PreparedOpening { zeta, zeta_omega, combined, shifted })
}

/// Adding a multiple of a polynomial keeps the length.
pub proof fn lemma_open_combination_length(
    tv: TranscriptState,
    store: PolynomialStore,
    polynomials: Seq<(Seq<char>, Seq<char>, bool, PolynomialSource)>,
    length: nat,
    k: nat,
)
    ensures
        open_combination(tv, store, polynomials, length, k) matches Ok(v) ==> v.len() == length,
        shifted_combination(tv, store, polynomials, length, k) matches Ok(v) ==> v.len() == length,
    decreases k,
{
    if k > 0 {
        lemma_open_combination_length(tv, store, polynomials, length, (k - 1) as nat);
    }
}

/// Adding parts of the quotient keeps the length.
pub proof fn lemma_quotient_combination_length(
    sum: Seq<int>,
    parts: Seq<Seq<int>>,
    nu: int,
    zeta_n: int,
    k: nat,
)
    ensures
        quotient_combination(sum, parts, nu, zeta_n, k) matches Ok(v) ==> v.len() == sum.len(),
    decreases k,
{
    if k > 0 {
        lemma_quotient_combination_length(sum, parts, nu, zeta_n, (k - 1) as nat);
    }
}

/// What a prover opens has one coefficient more than the circuit has rows,
/// and as many for the shifted point.
pub proof fn lemma_opening_lengths(
    tv: TranscriptState,
    store: PolynomialStore,
    polynomials: Seq<(Seq<char>, Seq<char>, bool, PolynomialSource)>,
    parts: Seq<Seq<int>>,
    n: nat,
    width: nat,
    root: int,
)
    ensures
        opening_inputs(tv, store, polynomials, parts, n, width, root) matches Ok(v)
            ==> v.combined.len() == n + 1 && v.shifted.len() == n && v.zeta != 0 && v.zeta_omega
            != 0 && n >= 1,
{
    reveal(opening_inputs);
    lemma_open_combination_length(tv, store, polynomials, n + 1, polynomials.len());
    lemma_open_combination_length(tv, store, polynomials, n, polynomials.len());
    if let Ok(zeta) = tv_challenge(tv, "z"@, 0) {
        if let Ok(f) = open_combination(tv, store, polynomials, n + 1, polynomials.len()) {
            if let Ok(nu) = tv_challenge(
                tv,
                "nu"@,
                (polynomials.len() + shifted_count(polynomials, polynomials.len())) as int,
            ) {
                lemma_quotient_combination_length(
                    f,
                    parts,
                    nu,
                    pow(zeta, n) % fr_modulus(),
                    width,
                );
            }
        }
    }
}

/// The form in which the polynomials of a store are given.
pub enum PolynomialForm {
    /// By their coefficients, under their labels.
    Coefficient,
    /// By their values on a domain, under their labels followed by
    /// `_lagrange`: the domain has `size` points, and the inverse of its
    /// root and of its size are given.
    Lagrange { size: nat, root_inverse: int, size_inverse: int },
}

/// The coefficients of the polynomial with a label, for a store that holds
/// its polynomials in a form. A polynomial that the store lacks, or that
/// has not as many values as the domain has points, is refused.
pub open spec fn opened_coefficients(store: PolynomialStore, label: Seq<char>, form: PolynomialForm) -> Result<
    Seq<int>,
    Error,
> {
    match form {
        PolynomialForm::Coefficient => if store.spec_contains(label) {
            Ok(store.spec_get(label))
        } else {
            Err(Error::InvalidInput)
        },
        PolynomialForm::Lagrange { size, root_inverse, size_inverse } => {
            let values_label = label + "_lagrange"@;
            if store.spec_contains(values_label) && size > 0 && store.spec_get(values_label).len()
                == size {
                Ok(spec_ifft(store.spec_get(values_label), root_inverse, size_inverse))
            } else {
                Err(Error::InvalidInput)
            }
        },
    }
}

/// The elements of a transcript after the values of the first `k`
/// polynomials of a manifest were added: each value at `zeta` under the
/// label of its polynomial and, for a polynomial that is opened at the
/// shifted point, its value at `zeta_omega` under the label followed by
/// `_omega`.
pub open spec fn evaluations_added(
    elements: Map<Seq<char>, Seq<u8>>,
    store: PolynomialStore,
    polynomials: Seq<(Seq<char>, Seq<char>, bool, PolynomialSource)>,
    form: PolynomialForm,
    zeta: int,
    zeta_omega: int,
    k: nat,
) -> Result<Map<Seq<char>, Seq<u8>>, Error>
    decreases k,
{
    if k == 0 {
        Ok(elements)
    } else {
        match evaluations_added(
            elements,
            store,
            polynomials,
            form,
            zeta,
            zeta_omega,
            (k - 1) as nat,
        ) {
            Err(e) => Err(e),
            Ok(m) => {
                let label = polynomials[k - 1].1;
                match opened_coefficients(store, label, form) {
                    Err(e) => Err(e),
                    Ok(coefficients) => {
                        let with_value = m.insert(label, spec_bytes32(fr_eval(coefficients, zeta)));
                        if polynomials[k - 1].2 {
                            Ok(
                                with_value.insert(
                                    label + "_omega"@,
                                    spec_bytes32(fr_eval(coefficients, zeta_omega)),
                                ),
                            )
                        } else {
                            Ok(with_value)
                        }
                    },
                }
            },
        }
    }
}

/// Later polynomials change nothing about the first failure.
pub proof fn lemma_evaluations_added_stays(
    elements: Map<Seq<char>, Seq<u8>>,
    store: PolynomialStore,
    polynomials: Seq<(Seq<char>, Seq<char>, bool, PolynomialSource)>,
    form: PolynomialForm,
    zeta: int,
    zeta_omega: int,
    k: nat,
    n: nat,
)
    requires
        k <= n,
        evaluations_added(elements, store, polynomials, form, zeta, zeta_omega, k) is Err,
    ensures
        evaluations_added(elements, store, polynomials, form, zeta, zeta_omega, n)
            == evaluations_added(elements, store, polynomials, form, zeta, zeta_omega, k),
    decreases n,
{
    if k < n {
        lemma_evaluations_added_stays(
            elements,
            store,
            polynomials,
            form,
            zeta,
            zeta_omega,
            k,
            (n - 1) as nat,
        );
    }
}

/// The form that a domain gives to the polynomials of a store, or the
/// coefficient form for none.
pub open spec fn form_of(domain: Option<&EvaluationDomain>) -> PolynomialForm {
    match domain {
        None => PolynomialForm::Coefficient,
        Some(d) => PolynomialForm::Lagrange {
            size: d.size as nat,
            root_inverse: d.root_inverse@,
            size_inverse: d.domain_inverse@,
        },
    }
}

/// The coefficients of the polynomial with a label: from the store as they
/// are, or, where a domain is given, from the values on the domain that the
/// store holds under the label followed by `_lagrange`.
pub fn coefficients_of(store: &PolynomialStore, label: &str, domain: Option<&EvaluationDomain>) -> (r:
    Result<Vec<Fr>, Error>)
    requires
        store.wf(),
        domain matches Some(d) ==> d.wf(),
    ensures
        r matches Ok(v) ==> all_wf(v@) && Ok::<Seq<int>, Error>(fr_values(v@))
            == opened_coefficients(*store, label@, form_of(domain)),
        r matches Err(e) ==> Err::<Seq<int>, Error>(e) == opened_coefficients(
            *store,
            label@,
            form_of(domain),
        ),
{
    match domain {
        None => match store.get(label) {
            Some(p) => Ok(vstd::slice::slice_to_vec(p.coefficients.as_slice())),
            None => Err(Error::InvalidInput),
        },
        Some(d) => {
            let values_label = label.to_owned().concat("_lagrange");
            match store.get(values_label.as_str()) {
                Some(p) => match d.ifft(p.coefficients.as_slice()) {
                    Ok(v) => Ok(v),
                    Err(_) => Err(Error::InvalidInput),
                },
                None => Err(Error::InvalidInput),
            }
        },
    }
}

/// Adds to a transcript the values of the polynomials of a manifest at two
/// points. Where a polynomial cannot be had, the transcript holds the
/// values added before it.
pub fn add_evaluations(
    transcript: &mut Transcript,
    store: &PolynomialStore,
    manifest: &PolynomialManifest,
    domain: Option<&EvaluationDomain>,
    zeta: &Fr,
    zeta_omega: &Fr,
) -> (r: Result<(), Error>)
    requires
        old(transcript).wf(),
        store.wf(),
        domain matches Some(d) ==> d.wf(),
        zeta.wf(),
        zeta_omega.wf(),
    ensures
        final(transcript).wf(),
        final(transcript)@.manifest == old(transcript)@.manifest,
        final(transcript)@.challenges == old(transcript)@.challenges,
        final(transcript)@.current_round == old(transcript)@.current_round,
        final(transcript)@.current_challenge == old(transcript)@.current_challenge,
        final(transcript)@.hash_type == old(transcript)@.hash_type,
        final(transcript)@.num_challenge_bytes == old(transcript)@.num_challenge_bytes,
        r is Ok ==> Ok::<Map<Seq<char>, Seq<u8>>, Error>(final(transcript)@.elements)
            == evaluations_added(
            old(transcript)@.elements,
            *store,
            manifest@,
            form_of(domain),
            zeta@,
            zeta_omega@,
            manifest@.len(),
        ),
        r matches Err(e) ==> Err::<Map<Seq<char>, Seq<u8>>, Error>(e) == evaluations_added(
            old(transcript)@.elements,
            *store,
            manifest@,
            form_of(domain),
            zeta@,
            zeta_omega@,
            manifest@.len(),
        ),
{
    let ghost start = transcript@.elements;
    let ghost pv = manifest@;
    let ghost form = form_of(domain);
    let mut i: usize = 0;
    while i < manifest.entries.len()
        invariant
            i <= manifest.entries@.len(),
            transcript.wf(),
            store.wf(),
            domain matches Some(d) ==> d.wf(),
            zeta.wf(),
            zeta_omega.wf(),
            pv == manifest@,
            form == form_of(domain),
            start == old(transcript)@.elements,
            transcript@.manifest == old(transcript)@.manifest,
            transcript@.challenges == old(transcript)@.challenges,
            transcript@.current_round == old(transcript)@.current_round,
            transcript@.current_challenge == old(transcript)@.current_challenge,
            transcript@.hash_type == old(transcript)@.hash_type,
            transcript@.num_challenge_bytes == old(transcript)@.num_challenge_bytes,
            evaluations_added(start, *store, pv, form, zeta@, zeta_omega@, i as nat) == Ok::<
                Map<Seq<char>, Seq<u8>>,
                Error,
            >(transcript@.elements),
        decreases manifest.entries@.len() - i,
    {
        let d = &manifest.entries[i];
        proof {
            assert(pv[i as int].1 == d.polynomial_label@);
            assert(pv[i as int].2 == d.requires_shifted_evaluation);
        }
        let coefficients = match coefficients_of(store, d.polynomial_label.as_str(), domain) {
            Ok(v) => v,
            Err(e) => {
                proof {
                    lemma_evaluations_added_stays(
                        start,
                        *store,
                        pv,
                        form,
                        zeta@,
                        zeta_omega@,
                        (i + 1) as nat,
                        pv.len(),
                    );
                }
                return Err(e);
            },
        };
        let polynomial = Polynomial::from_coefficients(coefficients);
        let value = polynomial.evaluate(zeta);
        transcript.add_element(d.polynomial_label.as_str(), fr_to_bytes(&value));
        if d.requires_shifted_evaluation {
            let shifted_value = polynomial.evaluate(zeta_omega);
            let label = d.polynomial_label.clone().concat("_omega");
            transcript.add_element(label.as_str(), fr_to_bytes(&shifted_value));
        }
        i = i + 1;
    }
    Ok(())
}

} // verus!
