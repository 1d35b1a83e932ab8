//! A circuit of arithmetic gates to exercise a prover and a verifier with:
//! multiplication gates `a b + a + b + 1 - c = 0` alternate with addition
//! gates `a + b + c + q_c = 0`, the second half of the rows repeats the
//! first, and the copy permutation pairs each row with its repetition.

use crate::errors::Error;
use crate::field::{eqm, fr_modulus, Fr};
use crate::modular::{lemma_eqm_add, lemma_eqm_mod, lemma_eqm_mul};
use crate::polynomial::{all_wf, fr_values};
use crate::proving_key::MAX_CIRCUIT_SIZE;
use vstd::prelude::*;

verus! {

/// The tag that marks an index of the permutation as one of the second wire.
pub const SECOND_WIRE_TAG: u32 = 0x4000_0000;

/// The tag that marks an index of the permutation as one of the third wire.
pub const THIRD_WIRE_TAG: u32 = 0x8000_0000;

/// The number of the last rows of each half that the permutation leaves in
/// place.
pub const NUM_ROWS_LEFT_IN_PLACE: usize = 4;

/// One row of the circuit as canonical integers: the three wires and the
/// five selectors.
pub ghost struct GateRow {
    pub w_l: int,
    pub w_r: int,
    pub w_o: int,
    pub q_l: int,
    pub q_r: int,
    pub q_o: int,
    pub q_c: int,
    pub q_m: int,
}

/// The value of the arithmetic relation `q_m a b + q_l a + q_r b + q_o c +
/// q_c` on a row, in the scalar field.
pub open spec fn gate_value(row: GateRow) -> int {
    (row.q_m * (row.w_l * row.w_r) + row.q_l * row.w_l + row.q_r * row.w_r + row.q_o * row.w_o
        + row.q_c) % fr_modulus()
}

/// The row of all zeros.
pub open spec fn zero_row() -> GateRow {
    GateRow { w_l: 0, w_r: 0, w_o: 0, q_l: 0, q_r: 0, q_o: 0, q_c: 0, q_m: 0 }
}

/// Row `k` of the first half of the circuit of `n` rows. Rows come in
/// pairs, and pair `i` takes five of the given values: two for the wires
/// of its multiplication gate, three for those of its addition gate. A
/// last row without a partner is zero.
pub open spec fn spec_half_row(values: Seq<int>, n: int, k: int) -> GateRow {
    let p = fr_modulus();
    let i = k / 2;
    if k >= 2 * (n / 4) {
        zero_row()
    } else if k % 2 == 0 {
        let a = values[5 * i];
        let b = values[5 * i + 1];
        GateRow {
            w_l: a,
            w_r: b,
            w_o: (a * b + a + b + 1) % p,
            q_l: 1,
            q_r: 1,
            q_o: p - 1,
            q_c: 1,
            q_m: 1,
        }
    } else {
        let a = values[5 * i + 2];
        let b = values[5 * i + 3];
        let c = values[5 * i + 4];
        GateRow { w_l: a, w_r: b, w_o: c, q_l: 1, q_r: 1, q_o: 1, q_c: (-(a + b + c)) % p, q_m: 0 }
    }
}

/// Row `r` of the circuit of `n` rows: the second half repeats the first.
pub open spec fn spec_row(values: Seq<int>, n: int, r: int) -> GateRow {
    spec_half_row(
        values,
        n,
        if r < n / 2 {
            r
        } else {
            r - n / 2
        },
    )
}

/// The row that the copy permutation pairs with row `r`: the same row of
/// the other half, but for the last rows of each half, which stay in place.
pub open spec fn spec_sigma(n: int, r: int) -> int {
    let shift = n / 2;
    if r < shift - NUM_ROWS_LEFT_IN_PLACE {
        r + shift
    } else if r < shift {
        r
    } else if r < n - NUM_ROWS_LEFT_IN_PLACE {
        r - shift
    } else {
        r
    }
}

/// The sizes for which the circuit exists: even, with room for the rows
/// that stay in place, and within the largest circuit size.
pub open spec fn is_test_size(n: int) -> bool {
    2 * NUM_ROWS_LEFT_IN_PLACE <= n <= MAX_CIRCUIT_SIZE && n % 2 == 0
}

/// The arithmetic relation holds on every row of the circuit, whatever the
/// values that the wires are filled with.
pub proof fn lemma_relation_holds(values: Seq<int>, n: int, r: int)
    requires
        n % 2 == 0,
        0 <= r < n,
        values.len() == 5 * (n / 4),
    ensures
        gate_value(spec_row(values, n, r)) == 0,
{
    let p = fr_modulus();
    let k = if r < n / 2 {
        r
    } else {
        r - n / 2
    };
    let row = spec_half_row(values, n, k);
    let i = k / 2;
    if k >= 2 * (n / 4) {
        assert(row.q_m * (row.w_l * row.w_r) == 0) by (nonlinear_arith)
            requires
                row.q_m == 0,
        ;
        assert(gate_value(row) == 0);
    } else if k % 2 == 0 {
        let a = values[5 * i];
        let b = values[5 * i + 1];
        let s = a * b + a + b + 1;
        // q_o c == (p - 1) (s % p), which is -s modulo p
        lemma_eqm_mod(s, p);
        assert(eqm(p - 1, -1, p)) by {
            vstd::arithmetic::div_mod::lemma_mod_add_multiples_vanish(-1, p);
        }
        lemma_eqm_mul(p - 1, -1, s % p, s, p);
        assert(-1 * s == -s);
        lemma_eqm_add(s, s, (p - 1) * (s % p), -s, p);
        assert(row.q_m * (row.w_l * row.w_r) == a * b) by (nonlinear_arith)
            requires
                row.q_m == 1,
                row.w_l == a,
                row.w_r == b,
        ;
        assert(row.q_m * (row.w_l * row.w_r) + row.q_l * row.w_l + row.q_r * row.w_r + row.q_o
            * row.w_o + row.q_c == s + (p - 1) * (s % p));
        assert(s + (-s) == 0);
    } else {
        let a = values[5 * i + 2];
        let b = values[5 * i + 3];
        let c = values[5 * i + 4];
        let s = a + b + c;
        lemma_eqm_mod(-s, p);
        lemma_eqm_add(s, s, (-s) % p, -s, p);
        assert(row.q_m * (row.w_l * row.w_r) == 0) by (nonlinear_arith)
            requires
                row.q_m == 0,
        ;
        assert(row.q_m * (row.w_l * row.w_r) + row.q_l * row.w_l + row.q_r * row.w_r + row.q_o
            * row.w_o + row.q_c == s + (-s) % p);
        assert(s + (-s) == 0);
    }
}

/// The copy permutation pairs rows that are equal, and pairing twice leads
/// back: the wires of the circuit satisfy its copy constraints.
pub proof fn lemma_copies_agree(values: Seq<int>, n: int, r: int)
    requires
        is_test_size(n),
        0 <= r < n,
    ensures
        0 <= spec_sigma(n, r) < n,
        spec_sigma(n, spec_sigma(n, r)) == r,
        spec_row(values, n, spec_sigma(n, r)) == spec_row(values, n, r),
{
}

/// One row of the circuit.
#[derive(Clone, Copy, Debug)]
pub struct Gate {
    pub w_l: Fr,
    pub w_r: Fr,
    pub w_o: Fr,
    pub q_l: Fr,
    pub q_r: Fr,
    pub q_o: Fr,
    pub q_c: Fr,
    pub q_m: Fr,
}

impl Gate {
    /// Every entry is canonical.
    pub open spec fn wf(&self) -> bool {
        &&& self.w_l.wf()
        &&& self.w_r.wf()
        &&& self.w_o.wf()
        &&& self.q_l.wf()
        &&& self.q_r.wf()
        &&& self.q_o.wf()
        &&& self.q_c.wf()
        &&& self.q_m.wf()
    }

    pub open spec fn view(&self) -> GateRow {
        GateRow {
            w_l: self.w_l@,
            w_r: self.w_r@,
            w_o: self.w_o@,
            q_l: self.q_l@,
            q_r: self.q_r@,
            q_o: self.q_o@,
            q_c: self.q_c@,
            q_m: self.q_m@,
        }
    }
}

/// Row `k` of the first half of the circuit of `n` rows.
pub fn half_row(values: &[Fr], n: usize, k: usize) -> (r: Gate)
    requires
        all_wf(values@),
        values@.len() == 5 * (n / 4),
        k < n / 2,
    ensures
        r.wf(),
        r@ == spec_half_row(fr_values(values@), n as int, k as int),
{
    let ghost p = fr_modulus();
    let zero = Fr::zero();
    let one = Fr::one();
    let i: usize = k / 2;
    let count = values.len();
    if k >= 2 * (n / 4) {
        Gate { w_l: zero, w_r: zero, w_o: zero, q_l: zero, q_r: zero, q_o: zero, q_c: zero, q_m: zero }
    } else if k % 2 == 0 {
        assert(5 * i + 4 < count);
        let a = values[5 * i];
        let b = values[5 * i + 1];
        let ab = a.mul(&b);
        let ab_a = ab.add(&a);
        let ab_a_b = ab_a.add(&b);
        let w_o = ab_a_b.add(&one);
        let q_o = one.neg();
        proof {
            lemma_eqm_mod(a@ * b@, p);
            lemma_eqm_add(ab@, a@ * b@, a@, a@, p);
            lemma_eqm_mod(ab@ + a@, p);
            lemma_eqm_add(ab_a@, a@ * b@ + a@, b@, b@, p);
            lemma_eqm_mod(ab_a@ + b@, p);
            lemma_eqm_add(ab_a_b@, a@ * b@ + a@ + b@, 1, 1, p);
            vstd::arithmetic::div_mod::lemma_mod_add_multiples_vanish(-1, p);
            vstd::arithmetic::div_mod::lemma_small_mod((p - 1) as nat, p as nat);
        }
        Gate { w_l: a, w_r: b, w_o, q_l: one, q_r: one, q_o, q_c: one, q_m: one }
    } else {
        assert(5 * i + 4 < count);
        let a = values[5 * i + 2];
        let b = values[5 * i + 3];
        let c = values[5 * i + 4];
        let a_b = a.add(&b);
        let a_b_c = a_b.add(&c);
        let q_c = a_b_c.neg();
        proof {
            lemma_eqm_mod(a@ + b@, p);
            lemma_eqm_add(a_b@, a@ + b@, c@, c@, p);
            lemma_eqm_mod(a@ + b@ + c@, p);
            lemma_eqm_mod(a_b@ + c@, p);
            // -(x % p) and -x agree modulo p
            lemma_eqm_mul(-1, -1, a_b_c@, a@ + b@ + c@, p);
            assert(-1 * a_b_c@ == -a_b_c@);
            assert(-1 * (a@ + b@ + c@) == -(a@ + b@ + c@));
        }
        Gate { w_l: a, w_r: b, w_o: c, q_l: one, q_r: one, q_o: one, q_c, q_m: zero }
    }
}

/// The circuit by columns, each of one entry per row, and the copy
/// permutation of each wire as tagged row indices.
#[derive(Clone, Debug)]
pub struct ArithmeticCircuit {
    pub w_l: Vec<Fr>,
    pub w_r: Vec<Fr>,
    pub w_o: Vec<Fr>,
    pub q_l: Vec<Fr>,
    pub q_r: Vec<Fr>,
    pub q_o: Vec<Fr>,
    pub q_c: Vec<Fr>,
    pub q_m: Vec<Fr>,
    pub sigma_1_mapping: Vec<u32>,
    pub sigma_2_mapping: Vec<u32>,
    pub sigma_3_mapping: Vec<u32>,
}

impl ArithmeticCircuit {
    /// The number of rows.
    pub open spec fn size(&self) -> nat {
        self.w_l@.len()
    }

    /// The columns have one length.
    pub open spec fn columns_have(&self, n: nat) -> bool {
        &&& self.w_l@.len() == n
        &&& self.w_r@.len() == n
        &&& self.w_o@.len() == n
        &&& self.q_l@.len() == n
        &&& self.q_r@.len() == n
        &&& self.q_o@.len() == n
        &&& self.q_c@.len() == n
        &&& self.q_m@.len() == n
    }

    /// The columns have one length, as the permutations have, and every
    /// entry is canonical.
    pub open spec fn wf(&self) -> bool {
        &&& self.columns_have(self.size())
        &&& self.sigma_1_mapping@.len() == self.size()
        &&& self.sigma_2_mapping@.len() == self.size()
        &&& self.sigma_3_mapping@.len() == self.size()
        &&& forall|r: int| 0 <= r < self.size() ==> (#[trigger] self.gate(r)).wf()
    }

    /// Row `r`.
    pub open spec fn gate(&self, r: int) -> Gate {
        Gate {
            w_l: self.w_l@[r],
            w_r: self.w_r@[r],
            w_o: self.w_o@[r],
            q_l: self.q_l@[r],
            q_r: self.q_r@[r],
            q_o: self.q_o@[r],
            q_c: self.q_c@[r],
            q_m: self.q_m@[r],
        }
    }

    /// The arithmetic relation holds on every row.
    pub open spec fn satisfied(&self) -> bool {
        forall|r: int| 0 <= r < self.size() ==> gate_value(#[trigger] self.gate(r)@) == 0
    }

    /// The rows are those of the circuit of `n` rows filled with `values`,
    /// and the permutations are its copy permutation, tagged by wire.
    pub open spec fn is_test_circuit(&self, values: Seq<int>, n: int) -> bool {
        &&& self.size() == n
        &&& forall|r: int| 0 <= r < n ==> (#[trigger] self.gate(r))@ == spec_row(values, n, r)
        &&& forall|r: int|
            0 <= r < n ==> (#[trigger] self.sigma_1_mapping@[r]) == spec_sigma(n, r)
        &&& forall|r: int|
            0 <= r < n ==> (#[trigger] self.sigma_2_mapping@[r]) == spec_sigma(n, r)
                + SECOND_WIRE_TAG
        &&& forall|r: int|
            0 <= r < n ==> (#[trigger] self.sigma_3_mapping@[r]) == spec_sigma(n, r)
                + THIRD_WIRE_TAG
    }

    /// The circuit without rows that has the given permutations.
    fn with_mappings(
        sigma_1_mapping: Vec<u32>,
        sigma_2_mapping: Vec<u32>,
        sigma_3_mapping: Vec<u32>,
    ) -> (r: ArithmeticCircuit)
        ensures
            r.columns_have(0),
            r.sigma_1_mapping == sigma_1_mapping,
            r.sigma_2_mapping == sigma_2_mapping,
            r.sigma_3_mapping == sigma_3_mapping,
    {
        ArithmeticCircuit {
            w_l: Vec::new(),
            w_r: Vec::new(),
            w_o: Vec::new(),
            q_l: Vec::new(),
            q_r: Vec::new(),
            q_o: Vec::new(),
            q_c: Vec::new(),
            q_m: Vec::new(),
            sigma_1_mapping,
            sigma_2_mapping,
            sigma_3_mapping,
        }
    }

    /// Appends a row.
    fn push_gate(&mut self, gate: Gate)
        requires
            old(self).columns_have(old(self).size()),
        ensures
            final(self).columns_have(old(self).size() + 1),
            final(self).gate(old(self).size() as int) == gate,
            forall|r: int|
                0 <= r < old(self).size() ==> #[trigger] final(self).gate(r) == old(self).gate(r),
            final(self).sigma_1_mapping == old(self).sigma_1_mapping,
            final(self).sigma_2_mapping == old(self).sigma_2_mapping,
            final(self).sigma_3_mapping == old(self).sigma_3_mapping,
    {
        self.w_l.push(gate.w_l);
        self.w_r.push(gate.w_r);
        self.w_o.push(gate.w_o);
        self.q_l.push(gate.q_l);
        self.q_r.push(gate.q_r);
        self.q_o.push(gate.q_o);
        self.q_c.push(gate.q_c);
        self.q_m.push(gate.q_m);
    }

    /// Row `r`.
    pub fn get_gate(&self, r: usize) -> (g: Gate)
        requires
            self.columns_have(self.size()),
            r < self.size(),
        ensures
            g == self.gate(r as int),
    {
        Gate {
            w_l: self.w_l[r],
            w_r: self.w_r[r],
            w_o: self.w_o[r],
            q_l: self.q_l[r],
            q_r: self.q_r[r],
            q_o: self.q_o[r],
            q_c: self.q_c[r],
            q_m: self.q_m[r],
        }
    }
}

/// The row that the copy permutation pairs with row `r`.
pub fn sigma_index(n: usize, r: usize) -> (s: u32)
    requires
        is_test_size(n as int),
        r < n,
    ensures
        s == spec_sigma(n as int, r as int),
{
    let shift: usize = n / 2;
    let s: usize = if r < shift - NUM_ROWS_LEFT_IN_PLACE {
        r + shift
    } else if r < shift {
        r
    } else if r < n - NUM_ROWS_LEFT_IN_PLACE {
        r - shift
    } else {
        r
    };
    s as u32
}

/// The circuit of `n` rows whose wires are filled with `values`, five for
/// each pair of rows of the first half, in the order in which the rows take
/// them. It exists for an even `n` of at least eight rows and at most the
/// largest circuit size, and for no other number of values.
pub fn generate_test_data(n: usize, values: &[Fr]) -> (r: Result<ArithmeticCircuit, Error>)
    requires
        all_wf(values@),
    ensures
        r is Ok <==> is_test_size(n as int) && values@.len() == 5 * (n / 4),
        r matches Err(e) ==> e == Error::InvalidInput,
        r matches Ok(circuit) ==> {
            &&& circuit.wf()
            &&& circuit.is_test_circuit(fr_values(values@), n as int)
            &&& circuit.satisfied()
        },
{
    if n < 2 * NUM_ROWS_LEFT_IN_PLACE || n > MAX_CIRCUIT_SIZE || n % 2 != 0 {
        return Err(Error::InvalidInput);
    }
    if values.len() != 5 * (n / 4) {
        return Err(Error::InvalidInput);
    }
    let ghost v = fr_values(values@);
    let shift: usize = n / 2;
    let mut sigma_1: Vec<u32> = Vec::new();
    let mut sigma_2: Vec<u32> = Vec::new();
    let mut sigma_3: Vec<u32> = Vec::new();
    let mut r: usize = 0;
    while r < n
        invariant
            is_test_size(n as int),
            r <= n,
            sigma_1@.len() == r,
            sigma_2@.len() == r,
            sigma_3@.len() == r,
            forall|j: int| 0 <= j < r ==> (#[trigger] sigma_1@[j]) == spec_sigma(n as int, j),
            forall|j: int|
                0 <= j < r ==> (#[trigger] sigma_2@[j]) == spec_sigma(n as int, j)
                    + SECOND_WIRE_TAG,
            forall|j: int|
                0 <= j < r ==> (#[trigger] sigma_3@[j]) == spec_sigma(n as int, j) + THIRD_WIRE_TAG,
        decreases n - r,
    {
        let index = sigma_index(n, r);
        sigma_1.push(index);
        sigma_2.push(index + SECOND_WIRE_TAG);
        sigma_3.push(index + THIRD_WIRE_TAG);
        r += 1;
    }
    let mut circuit = ArithmeticCircuit::with_mappings(sigma_1, sigma_2, sigma_3);
    let mut k: usize = 0;
    while k < shift
        invariant
            is_test_size(n as int),
            values@.len() == 5 * (n / 4),
            all_wf(values@),
            v == fr_values(values@),
            shift == n / 2,
            k <= shift,
            circuit.size() == k,
            circuit.columns_have(k as nat),
            circuit.sigma_1_mapping == sigma_1,
            circuit.sigma_2_mapping == sigma_2,
            circuit.sigma_3_mapping == sigma_3,
            forall|r: int|
                0 <= r < k ==> (#[trigger] circuit.gate(r)).wf() && circuit.gate(r)@ == spec_row(
                    v,
                    n as int,
                    r,
                ),
        decreases shift - k,
    {
        let gate = half_row(values, n, k);
        circuit.push_gate(gate);
        k += 1;
    }
    while k < n
        invariant
            is_test_size(n as int),
            values@.len() == 5 * (n / 4),
            v == fr_values(values@),
            shift == n / 2,
            shift <= k <= n,
            circuit.size() == k,
            circuit.columns_have(k as nat),
            circuit.sigma_1_mapping == sigma_1,
            circuit.sigma_2_mapping == sigma_2,
            circuit.sigma_3_mapping == sigma_3,
            forall|r: int|
                0 <= r < k ==> (#[trigger] circuit.gate(r)).wf() && circuit.gate(r)@ == spec_row(
                    v,
                    n as int,
                    r,
                ),
        decreases n - k,
    {
        let gate = circuit.get_gate(k - shift);
        circuit.push_gate(gate);
        k += 1;
    }
    proof {
        assert forall|j: int| 0 <= j < circuit.size() implies gate_value(
            #[trigger] circuit.gate(j)@,
        ) == 0 by {
            lemma_relation_holds(v, n as int, j);
        }
    }
    Ok(circuit)
}

} // verus!
