//! From the rows of a circuit to the polynomials that a prover finds in the
//! store of a proving key: the wires by their values on the domain, the
//! selectors and the permutations by their coefficients and by their values
//! on the coset of the fourfold domain.

use crate::arithmetic_circuit::{ArithmeticCircuit, SECOND_WIRE_TAG, THIRD_WIRE_TAG};
use crate::errors::Error;
use crate::evaluation_domain::{spec_ifft, EvaluationDomain};
use crate::field::{fr_modulus, mul_mod, Fr};
use crate::persisted_key::store_view;
use crate::polynomial::{all_wf, fr_eval, fr_values, poly_eval, Polynomial};
use crate::polynomial_store::PolynomialStore;
use crate::proving_key::ProvingKey;
use vstd::arithmetic::power::pow;
use vstd::prelude::*;

verus! {

/// The generator of the coset that stands for the second wire.
pub const SECOND_WIRE_COSET: u64 = 5;

/// The generator of the coset that stands for the third wire.
pub const THIRD_WIRE_COSET: u64 = 6;

/// The row that a tagged index of a permutation names.
pub open spec fn spec_tagged_row(tagged: u32) -> nat {
    if tagged >= THIRD_WIRE_TAG {
        (tagged - THIRD_WIRE_TAG) as nat
    } else if tagged >= SECOND_WIRE_TAG {
        (tagged - SECOND_WIRE_TAG) as nat
    } else {
        tagged as nat
    }
}

/// The generator of the coset of the wire that a tagged index names: one
/// for the first wire.
pub open spec fn spec_tagged_coset(tagged: u32) -> int {
    if tagged >= THIRD_WIRE_TAG {
        THIRD_WIRE_COSET as int
    } else if tagged >= SECOND_WIRE_TAG {
        SECOND_WIRE_COSET as int
    } else {
        1
    }
}

/// The value of a permutation polynomial where the permutation leads to a
/// tagged index: the power of the root that belongs to the row, times the
/// generator of the coset of the wire.
pub open spec fn spec_sigma_value(tagged: u32, root: int) -> int {
    let p = fr_modulus();
    mul_mod(spec_tagged_coset(tagged), pow(root, spec_tagged_row(tagged)) % p, p)
}

/// The values of a permutation polynomial on the domain.
pub open spec fn spec_sigma_values(mapping: Seq<u32>, root: int) -> Seq<int> {
    Seq::new(mapping.len(), |i: int| spec_sigma_value(mapping[i], root))
}

/// The values on a domain of the permutation polynomial of a wire, from
/// the tagged indices that the permutation leads to.
pub fn compute_permutation_lagrange_base_single(mapping: &[u32], domain: &EvaluationDomain) -> (r:
    Vec<Fr>)
    requires
        domain.wf(),
    ensures
        all_wf(r@),
        r@.len() == mapping@.len(),
        fr_values(r@) == spec_sigma_values(mapping@, domain.root@),
{
    let mut out: Vec<Fr> = Vec::new();
    let mut i: usize = 0;
    while i < mapping.len()
        invariant
            i <= mapping@.len(),
            domain.wf(),
            out@.len() == i,
            all_wf(out@),
            forall|j: int| 0 <= j < i ==> (#[trigger] out@[j])@ == spec_sigma_value(
                mapping@[j],
                domain.root@,
            ),
        decreases mapping@.len() - i,
    {
        let tagged = mapping[i];
        let (row, coset): (u32, u64) = if tagged >= THIRD_WIRE_TAG {
            (tagged - THIRD_WIRE_TAG, THIRD_WIRE_COSET)
        } else if tagged >= SECOND_WIRE_TAG {
            (tagged - SECOND_WIRE_TAG, SECOND_WIRE_COSET)
        } else {
            (tagged, 1)
        };
        let power = domain.root.pow(row as u64);
        let value = Fr::from_u64(coset).mul(&power);
        out.push(value);
        i = i + 1;
    }
    proof {
        assert(fr_values(out@) =~= spec_sigma_values(mapping@, domain.root@));
    }
    out
}

/// The coefficients of the polynomial that has the given values on a
/// domain.
#[verifier::opaque]
pub open spec fn spec_coefficient_form(values: Seq<int>, small: EvaluationDomain) -> Seq<int> {
    spec_ifft(values, small.root_inverse@, small.domain_inverse@)
}

/// The values of a polynomial on the coset of a domain: entry `k` is the
/// value at the generator of the coset times the power `k` of the root.
#[verifier::opaque]
pub open spec fn spec_coset_form(c: Seq<int>, large: EvaluationDomain) -> Seq<int> {
    let p = fr_modulus();
    Seq::new(
        large.size as nat,
        |k: int| fr_eval(c, mul_mod(large.generator@, pow(large.root@, k as nat) % p, p)),
    )
}

/// Zero coefficients behind a polynomial change none of its values.
pub proof fn lemma_zeros_behind(c: Seq<int>, k: nat, x: int)
    ensures
        poly_eval(c + Seq::new(k, |i: int| 0int), x) == poly_eval(c, x),
    decreases k,
{
    let longer = c + Seq::new(k, |i: int| 0int);
    if k == 0 {
        assert(longer =~= c);
    } else {
        let shorter = c + Seq::new((k - 1) as nat, |i: int| 0int);
        lemma_zeros_behind(c, (k - 1) as nat, x);
        assert(longer.drop_last() =~= shorter);
        assert(longer.last() == 0);
        assert(0 * pow(x, (longer.len() - 1) as nat) == 0);
    }
}

/// The values of a polynomial on the coset of a domain that has at least
/// as many points as the polynomial has coefficients.
pub fn coset_form(coefficients: &[Fr], large: &EvaluationDomain) -> (r: Result<Vec<Fr>, Error>)
    requires
        large.wf(),
        all_wf(coefficients@),
    ensures
        r is Ok <==> large.size > 0 && coefficients@.len() <= large.size,
        r matches Err(e) ==> e == Error::InvalidInput,
        r matches Ok(v) ==> all_wf(v@) && fr_values(v@) == spec_coset_form(
            fr_values(coefficients@),
            *large,
        ),
{
    if large.size == 0 || coefficients.len() > large.size {
        return Err(Error::InvalidInput);
    }
    let ghost c = fr_values(coefficients@);
    let mut extended: Vec<Fr> = Vec::new();
    let mut i: usize = 0;
    while i < large.size
        invariant
            i <= large.size,
            coefficients@.len() <= large.size,
            all_wf(coefficients@),
            all_wf(extended@),
            extended@.len() == i,
            forall|j: int|
                0 <= j < i ==> (#[trigger] extended@[j])@ == (if j < coefficients@.len() {
                    coefficients@[j]@
                } else {
                    0
                }),
        decreases large.size - i,
    {
        if i < coefficients.len() {
            extended.push(coefficients[i]);
        } else {
            extended.push(Fr::zero());
        }
        i = i + 1;
    }
    proof {
        assert(fr_values(extended@) =~= c + Seq::new(
            (large.size - coefficients@.len()) as nat,
            |i: int| 0int,
        ));
    }
    match large.coset_fft(extended.as_slice()) {
        Ok(v) => {
            proof {
                reveal(spec_coset_form);
                let p = fr_modulus();
                assert forall|k: int| 0 <= k < v@.len() implies fr_values(v@)[k] == spec_coset_form(
                    c,
                    *large,
                )[k] by {
                    let x = mul_mod(large.generator@, pow(large.root@, k as nat) % p, p);
                    assert(v@[k]@ == fr_eval(fr_values(extended@), x));
                    lemma_zeros_behind(c, (large.size - coefficients@.len()) as nat, x);
                }
                assert(fr_values(v@) =~= spec_coset_form(c, *large));
            }
            Ok(v)
        },
        Err(e) => Err(e),
    }
}

/// Puts the polynomial with the given coefficients under a label.
pub fn put_polynomial(store: &mut PolynomialStore, label: &str, coefficients: Vec<Fr>)
    requires
        old(store).wf(),
        all_wf(coefficients@),
    ensures
        final(store).wf(),
        store_view(*final(store)) == store_view(*old(store)).insert(
            label@,
            fr_values(coefficients@),
        ),
{
    let ghost values = fr_values(coefficients@);
    let polynomial = Polynomial::from_coefficients(coefficients);
    store.put(label, polynomial);
    proof {
        assert(store_view(*store) =~= store_view(*old(store)).insert(label@, values));
    }
}

/// The store with the permutations of a circuit: their values on the
/// domain, their coefficients, and their values on the coset.
pub open spec fn spec_with_permutations(
    m: Map<Seq<char>, Seq<int>>,
    circuit: ArithmeticCircuit,
    small: EvaluationDomain,
    large: EvaluationDomain,
) -> Map<Seq<char>, Seq<int>> {
    let l1 = spec_sigma_values(circuit.sigma_1_mapping@, small.root@);
    let l2 = spec_sigma_values(circuit.sigma_2_mapping@, small.root@);
    let l3 = spec_sigma_values(circuit.sigma_3_mapping@, small.root@);
    let c1 = spec_coefficient_form(l1, small);
    let c2 = spec_coefficient_form(l2, small);
    let c3 = spec_coefficient_form(l3, small);
    m.insert("sigma_1_lagrange"@, l1).insert("sigma_2_lagrange"@, l2).insert(
        "sigma_3_lagrange"@,
        l3,
    ).insert("sigma_1"@, c1).insert("sigma_2"@, c2).insert("sigma_3"@, c3).insert(
        "sigma_1_fft"@,
        spec_coset_form(c1, large),
    ).insert("sigma_2_fft"@, spec_coset_form(c2, large)).insert(
        "sigma_3_fft"@,
        spec_coset_form(c3, large),
    )
}

/// The store with the wires of a circuit by their values on the domain.
pub open spec fn spec_with_wires(m: Map<Seq<char>, Seq<int>>, circuit: ArithmeticCircuit) -> Map<
    Seq<char>,
    Seq<int>,
> {
    m.insert("w_1_lagrange"@, fr_values(circuit.w_l@)).insert(
        "w_2_lagrange"@,
        fr_values(circuit.w_r@),
    ).insert("w_3_lagrange"@, fr_values(circuit.w_o@))
}

/// The store with the selectors of a circuit: their coefficients and
/// their values on the coset.
pub open spec fn spec_with_selectors(
    m: Map<Seq<char>, Seq<int>>,
    circuit: ArithmeticCircuit,
    small: EvaluationDomain,
    large: EvaluationDomain,
) -> Map<Seq<char>, Seq<int>> {
    let c1 = spec_coefficient_form(fr_values(circuit.q_l@), small);
    let c2 = spec_coefficient_form(fr_values(circuit.q_r@), small);
    let c3 = spec_coefficient_form(fr_values(circuit.q_o@), small);
    let cm = spec_coefficient_form(fr_values(circuit.q_m@), small);
    let cc = spec_coefficient_form(fr_values(circuit.q_c@), small);
    m.insert("q_1"@, c1).insert("q_2"@, c2).insert("q_3"@, c3).insert("q_m"@, cm).insert(
        "q_c"@,
        cc,
    ).insert("q_1_fft"@, spec_coset_form(c1, large)).insert(
        "q_2_fft"@,
        spec_coset_form(c2, large),
    ).insert("q_3_fft"@, spec_coset_form(c3, large)).insert(
        "q_m_fft"@,
        spec_coset_form(cm, large),
    ).insert("q_c_fft"@, spec_coset_form(cc, large))
}

/// The store of a key once the polynomials of a circuit were put into
/// it: the permutations, then the wires, then the selectors.
pub open spec fn spec_filled_store(
    m: Map<Seq<char>, Seq<int>>,
    circuit: ArithmeticCircuit,
    small: EvaluationDomain,
    large: EvaluationDomain,
) -> Map<Seq<char>, Seq<int>> {
    spec_with_selectors(
        spec_with_wires(spec_with_permutations(m, circuit, small, large), circuit),
        circuit,
        small,
        large,
    )
}

/// The columns of a circuit hold canonical scalars.
pub proof fn lemma_columns_canonical(circuit: ArithmeticCircuit)
    requires
        circuit.wf(),
    ensures
        all_wf(circuit.w_l@),
        all_wf(circuit.w_r@),
        all_wf(circuit.w_o@),
        all_wf(circuit.q_l@),
        all_wf(circuit.q_r@),
        all_wf(circuit.q_o@),
        all_wf(circuit.q_c@),
        all_wf(circuit.q_m@),
{
    assert forall|i: int| 0 <= i < circuit.w_l@.len() implies (#[trigger] circuit.w_l@[i]).wf() by {
        assert(circuit.gate(i).wf());
    }
    assert forall|i: int| 0 <= i < circuit.w_r@.len() implies (#[trigger] circuit.w_r@[i]).wf() by {
        assert(circuit.gate(i).wf());
    }
    assert forall|i: int| 0 <= i < circuit.w_o@.len() implies (#[trigger] circuit.w_o@[i]).wf() by {
        assert(circuit.gate(i).wf());
    }
    assert forall|i: int| 0 <= i < circuit.q_l@.len() implies (#[trigger] circuit.q_l@[i]).wf() by {
        assert(circuit.gate(i).wf());
    }
    assert forall|i: int| 0 <= i < circuit.q_r@.len() implies (#[trigger] circuit.q_r@[i]).wf() by {
        assert(circuit.gate(i).wf());
    }
    assert forall|i: int| 0 <= i < circuit.q_o@.len() implies (#[trigger] circuit.q_o@[i]).wf() by {
        assert(circuit.gate(i).wf());
    }
    assert forall|i: int| 0 <= i < circuit.q_c@.len() implies (#[trigger] circuit.q_c@[i]).wf() by {
        assert(circuit.gate(i).wf());
    }
    assert forall|i: int| 0 <= i < circuit.q_m@.len() implies (#[trigger] circuit.q_m@[i]).wf() by {
        assert(circuit.gate(i).wf());
    }
}

/// The coefficients and the values on the coset of the polynomial that has
/// the given values on the domain of a circuit.
fn both_forms(values: &[Fr], small: &EvaluationDomain, large: &EvaluationDomain) -> (r: Result<
    (Vec<Fr>, Vec<Fr>),
    Error,
>)
    requires
        small.wf(),
        large.wf(),
        all_wf(values@),
        large.size == 4 * small.size,
    ensures
        r is Ok <==> small.size > 0 && values@.len() == small.size,
        r matches Err(e) ==> e == Error::InvalidInput,
        r matches Ok(v) ==> {
            &&& all_wf(v.0@)
            &&& all_wf(v.1@)
            &&& fr_values(v.0@) == spec_coefficient_form(fr_values(values@), *small)
            &&& fr_values(v.1@) == spec_coset_form(
                spec_coefficient_form(fr_values(values@), *small),
                *large,
            )
        },
{
    let coefficients = match small.ifft(values) {
        Ok(c) => c,
        Err(e) => {
            return Err(e);
        },
    };
    proof {
        reveal(spec_coefficient_form);
        assert(fr_values(coefficients@).len() == coefficients@.len());
        assert(spec_ifft(fr_values(values@), small.root_inverse@, small.domain_inverse@).len()
            == values@.len());
    }
    match coset_form(coefficients.as_slice(), large) {
        Ok(v) => Ok((coefficients, v)),
        Err(e) => Err(e),
    }
}

/// Puts the permutations of a circuit into a store.
fn put_permutations(
    store: &mut PolynomialStore,
    circuit: &ArithmeticCircuit,
    small: &EvaluationDomain,
    large: &EvaluationDomain,
) -> (r: Result<(), Error>)
    requires
        old(store).wf(),
        circuit.wf(),
        small.wf(),
        large.wf(),
        large.size == 4 * small.size,
        small.size > 0,
        circuit.size() == small.size,
    ensures
        final(store).wf(),
        r is Ok,
        store_view(*final(store)) == spec_with_permutations(
            store_view(*old(store)),
            *circuit,
            *small,
            *large,
        ),
{
    let l1 = compute_permutation_lagrange_base_single(circuit.sigma_1_mapping.as_slice(), small);
    let l2 = compute_permutation_lagrange_base_single(circuit.sigma_2_mapping.as_slice(), small);
    let l3 = compute_permutation_lagrange_base_single(circuit.sigma_3_mapping.as_slice(), small);
    let (c1, f1) = match both_forms(l1.as_slice(), small, large) {
        Ok(v) => v,
        Err(e) => {
            return Err(e);
        },
    };
    let (c2, f2) = match both_forms(l2.as_slice(), small, large) {
        Ok(v) => v,
        Err(e) => {
            return Err(e);
        },
    };
    let (c3, f3) = match both_forms(l3.as_slice(), small, large) {
        Ok(v) => v,
        Err(e) => {
            return Err(e);
        },
    };
    put_polynomial(store, "sigma_1_lagrange", l1);
    put_polynomial(store, "sigma_2_lagrange", l2);
    put_polynomial(store, "sigma_3_lagrange", l3);
    put_polynomial(store, "sigma_1", c1);
    put_polynomial(store, "sigma_2", c2);
    put_polynomial(store, "sigma_3", c3);
    put_polynomial(store, "sigma_1_fft", f1);
    put_polynomial(store, "sigma_2_fft", f2);
    put_polynomial(store, "sigma_3_fft", f3);
    Ok(())
}

/// Puts the wires of a circuit into a store.
fn put_wires(store: &mut PolynomialStore, circuit: &ArithmeticCircuit)
    requires
        old(store).wf(),
        circuit.wf(),
    ensures
        final(store).wf(),
        store_view(*final(store)) == spec_with_wires(store_view(*old(store)), *circuit),
{
    proof {
        lemma_columns_canonical(*circuit);
    }
    put_polynomial(store, "w_1_lagrange", vstd::slice::slice_to_vec(circuit.w_l.as_slice()));
    put_polynomial(store, "w_2_lagrange", vstd::slice::slice_to_vec(circuit.w_r.as_slice()));
    put_polynomial(store, "w_3_lagrange", vstd::slice::slice_to_vec(circuit.w_o.as_slice()));
}

/// Puts the selectors of a circuit into a store.
fn put_selectors(
    store: &mut PolynomialStore,
    circuit: &ArithmeticCircuit,
    small: &EvaluationDomain,
    large: &EvaluationDomain,
) -> (r: Result<(), Error>)
    requires
        old(store).wf(),
        circuit.wf(),
        small.wf(),
        large.wf(),
        large.size == 4 * small.size,
        small.size > 0,
        circuit.size() == small.size,
    ensures
        final(store).wf(),
        r is Ok,
        store_view(*final(store)) == spec_with_selectors(
            store_view(*old(store)),
            *circuit,
            *small,
            *large,
        ),
{
    proof {
        lemma_columns_canonical(*circuit);
    }
    let (c1, f1) = match both_forms(circuit.q_l.as_slice(), small, large) {
        Ok(v) => v,
        Err(e) => {
            return Err(e);
        },
    };
    let (c2, f2) = match both_forms(circuit.q_r.as_slice(), small, large) {
        Ok(v) => v,
        Err(e) => {
            return Err(e);
        },
    };
    let (c3, f3) = match both_forms(circuit.q_o.as_slice(), small, large) {
        Ok(v) => v,
        Err(e) => {
            return Err(e);
        },
    };
    let (cm, fm) = match both_forms(circuit.q_m.as_slice(), small, large) {
        Ok(v) => v,
        Err(e) => {
            return Err(e);
        },
    };
    let (cc, fc) = match both_forms(circuit.q_c.as_slice(), small, large) {
        Ok(v) => v,
        Err(e) => {
            return Err(e);
        },
    };
    put_polynomial(store, "q_1", c1);
    put_polynomial(store, "q_2", c2);
    put_polynomial(store, "q_3", c3);
    put_polynomial(store, "q_m", cm);
    put_polynomial(store, "q_c", cc);
    put_polynomial(store, "q_1_fft", f1);
    put_polynomial(store, "q_2_fft", f2);
    put_polynomial(store, "q_3_fft", f3);
    put_polynomial(store, "q_m_fft", fm);
    put_polynomial(store, "q_c_fft", fc);
    Ok(())
}

/// Puts the polynomials of a circuit into the store of its proving key:
/// the permutations by their values on the domain, by their coefficients
/// and by their values on the coset of the fourfold domain, the wires by
/// their values on the domain, and the selectors by their coefficients and
/// by their values on the coset. The circuit must have as many rows as the
/// key says, and more than none; else the key stays as it is.
pub fn fill_test_key(circuit: &ArithmeticCircuit, key: &mut ProvingKey) -> (r: Result<(), Error>)
    requires
        circuit.wf(),
        old(key).wf(),
    ensures
        final(key).wf(),
        r is Ok <==> old(key).circuit_size > 0 && circuit.size() == old(key).circuit_size,
        r matches Err(e) ==> e == Error::InvalidInput && *final(key) == *old(key),
        r is Ok ==> {
            &&& store_view(final(key).polynomial_store) == spec_filled_store(
                store_view(old(key).polynomial_store),
                *circuit,
                old(key).small_domain,
                old(key).large_domain,
            )
            &&& final(key).composer_type == old(key).composer_type
            &&& final(key).circuit_size == old(key).circuit_size
            &&& final(key).log_circuit_size == old(key).log_circuit_size
            &&& final(key).num_public_inputs == old(key).num_public_inputs
            &&& final(key).contains_recursive_proof == old(key).contains_recursive_proof
            &&& final(key).recursive_proof_public_input_indices == old(
                key,
            ).recursive_proof_public_input_indices
            &&& final(key).memory_read_records == old(key).memory_read_records
            &&& final(key).memory_write_records == old(key).memory_write_records
            &&& final(key).small_domain == old(key).small_domain
            &&& final(key).large_domain == old(key).large_domain
            &&& final(key).reference_string == old(key).reference_string
            &&& final(key).quotient_polynomial_parts == old(key).quotient_polynomial_parts
            &&& final(key).pippenger_runtime_state == old(key).pippenger_runtime_state
            &&& final(key).polynomial_manifest == old(key).polynomial_manifest
        },
{
    if key.circuit_size == 0 || circuit.w_l.len() != key.circuit_size {
        return Err(Error::InvalidInput);
    }
    match put_permutations(&mut key.polynomial_store, circuit, &key.small_domain, &key.large_domain) {
        Ok(()) => {},
        Err(e) => {
            return Err(e);
        },
    }
    put_wires(&mut key.polynomial_store, circuit);
    match put_selectors(&mut key.polynomial_store, circuit, &key.small_domain, &key.large_domain) {
        Ok(()) => {},
        Err(e) => {
            return Err(e);
        },
    }
    Ok(())
}

} // verus!
