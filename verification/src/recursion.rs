//! Points of a verified inner proof, carried in the public inputs of a
//! circuit: every coordinate comes as four limbs of 68 bits.

use crate::field::{eqm, fq_modulus, mul_mod, Fq, Fr};
use crate::group::{G1Affine, G1Point};
use crate::modular::{lemma_eqm_add, lemma_eqm_mod, lemma_eqm_mul};
use crate::polynomial::{all_wf, fr_values};
use vstd::prelude::*;

verus! {

/// The number of bits of a limb.
pub const NUM_LIMB_BITS_IN_FIELD_SIMULATION: usize = 68;

/// The number of public inputs that carry the two points: two coordinates
/// each, four limbs each.
pub const NUM_RECURSION_INDICES: usize = 16;

/// The coordinate that four limbs stand for, least significant first:
/// `l0 + l1 * 2^68 + l2 * 2^136 + l3 * 2^204` in the base field.
pub open spec fn spec_limbs_coordinate(l0: int, l1: int, l2: int, l3: int) -> int {
    (l0 + l1 * 0x10_0000_0000_0000_0000int + l2 * 0x100_0000_0000_0000_0000_0000_0000_0000_0000int
        + l3 * 0x1000_0000_0000_0000_0000_0000_0000_0000_0000_0000_0000_0000_0000int) % fq_modulus()
}

/// The coordinate whose limbs are the public inputs at four indices.
pub open spec fn spec_recovered(inputs: Seq<int>, indices: Seq<u32>, first: int) -> int {
    spec_limbs_coordinate(
        inputs[indices[first] as int],
        inputs[indices[first + 1] as int],
        inputs[indices[first + 2] as int],
        inputs[indices[first + 3] as int],
    )
}

/// The two points that the public inputs at sixteen indices carry: the
/// coordinates `x0`, `y0`, `x1`, `y1` in this order.
pub open spec fn spec_recovered_points(inputs: Seq<int>, indices: Seq<u32>) -> (G1Point, G1Point) {
    (
        G1Point {
            x: spec_recovered(inputs, indices, 0),
            y: spec_recovered(inputs, indices, 4),
            infinity: false,
        },
        G1Point {
            x: spec_recovered(inputs, indices, 8),
            y: spec_recovered(inputs, indices, 12),
            infinity: false,
        },
    )
}

/// Whether sixteen indices all point into the public inputs.
pub open spec fn indices_in_range(indices: Seq<u32>, count: int) -> bool {
    indices.len() == NUM_RECURSION_INDICES && forall|k: int|
        0 <= k < indices.len() ==> (#[trigger] indices[k]) < count
}

/// The coordinate that four limbs stand for.
pub fn recover_fq_from_limbs(l0: &Fr, l1: &Fr, l2: &Fr, l3: &Fr) -> (r: Fq)
    requires
        l0.wf(),
        l1.wf(),
        l2.wf(),
        l3.wf(),
    ensures
        r.wf(),
        r@ == spec_limbs_coordinate(l0@, l1@, l2@, l3@),
{
    let ghost q = fq_modulus();
    let ghost s = 0x10_0000_0000_0000_0000int;
    let shift = Fq { limbs: [0, 16, 0, 0] };
    let a3 = Fq::from_fr(l3);
    let a2 = a3.mul(&shift).add(&Fq::from_fr(l2));
    let a1 = a2.mul(&shift).add(&Fq::from_fr(l1));
    let a0 = a1.mul(&shift).add(&Fq::from_fr(l0));
    proof {
        assert(shift@ == s);
        // a2 == l3 * s + l2
        lemma_eqm_mod(a3@ * s, q);
        lemma_eqm_add(mul_mod(a3@, s, q), a3@ * s, l2@, l2@, q);
        lemma_eqm_mod(mul_mod(a3@, s, q) + l2@, q);
        let e2 = l3@ * s + l2@;
        assert(eqm(a2@, e2, q));
        // a1 == (l3 * s + l2) * s + l1
        lemma_eqm_mul(a2@, e2, s, s, q);
        lemma_eqm_mod(a2@ * s, q);
        lemma_eqm_add(mul_mod(a2@, s, q), e2 * s, l1@, l1@, q);
        lemma_eqm_mod(mul_mod(a2@, s, q) + l1@, q);
        let e1 = e2 * s + l1@;
        assert(eqm(a1@, e1, q));
        // a0 == ((l3 * s + l2) * s + l1) * s + l0
        lemma_eqm_mul(a1@, e1, s, s, q);
        lemma_eqm_mod(a1@ * s, q);
        lemma_eqm_add(mul_mod(a1@, s, q), e1 * s, l0@, l0@, q);
        lemma_eqm_mod(mul_mod(a1@, s, q) + l0@, q);
        let e0 = e1 * s + l0@;
        assert(eqm(a0@, e0, q));
        assert(e0 == l0@ + l1@ * s + l2@ * (s * s) + l3@ * (s * s * s)) by (nonlinear_arith)
            requires
                e0 == e1 * s + l0@,
                e1 == e2 * s + l1@,
                e2 == l3@ * s + l2@,
        ;
        assert(s * s == 0x100_0000_0000_0000_0000_0000_0000_0000_0000int);
        assert(s * s * s == 0x1000_0000_0000_0000_0000_0000_0000_0000_0000_0000_0000_0000_0000int);
        vstd::arithmetic::div_mod::lemma_small_mod(a0@ as nat, q as nat);
    }
    a0
}

/// The two points that the public inputs at the sixteen indices carry.
pub fn recover_points(inputs: &Vec<Fr>, indices: &Vec<u32>) -> (r: (G1Affine, G1Affine))
    requires
        all_wf(inputs@),
        indices_in_range(indices@, inputs@.len() as int),
    ensures
        r.0.wf(),
        r.1.wf(),
        (r.0@, r.1@) == spec_recovered_points(fr_values(inputs@), indices@),
{
    let x0 = recover_at(inputs, indices, 0);
    let y0 = recover_at(inputs, indices, 4);
    let x1 = recover_at(inputs, indices, 8);
    let y1 = recover_at(inputs, indices, 12);
    (G1Affine::from_xy(x0, y0), G1Affine::from_xy(x1, y1))
}

/// The coordinate whose limbs are the public inputs at four of the
/// indices, from `first` on.
fn recover_at(inputs: &Vec<Fr>, indices: &Vec<u32>, first: usize) -> (r: Fq)
    requires
        all_wf(inputs@),
        indices_in_range(indices@, inputs@.len() as int),
        first + 3 < NUM_RECURSION_INDICES,
    ensures
        r.wf(),
        r@ == spec_recovered(fr_values(inputs@), indices@, first as int),
{
    let l0 = &inputs[indices[first] as usize];
    let l1 = &inputs[indices[first + 1] as usize];
    let l2 = &inputs[indices[first + 2] as usize];
    let l3 = &inputs[indices[first + 3] as usize];
    recover_fq_from_limbs(l0, l1, l2, l3)
}

} // verus!
